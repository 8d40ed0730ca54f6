//! The configuration assembler: builds one in-memory configuration from a
//! snapshot of the configuration directory.
//!
//! Only the general information is mandatory: a missing or unparsable
//! `general_info.json` fails the whole load.  Everything else is tolerated:
//! a missing board index falls back to scanning the board directories, a
//! board whose manifest is missing from the index path or unparsable is
//! skipped, and a measurement or packet file that is missing, empty or
//! ill-formed is skipped while the remaining files still load.

use vstd::prelude::*;
use vstd::string::*;
use crate::codec::{
    dec_general, dec_measurements_doc, dec_packets_doc, dec_str_map, decode_general,
    decode_manifest, decode_measurements, decode_packets, decode_str_map, manifest_of, Manifest,
};
use crate::json::{json_doc_of, parse_json, JVal, JsonValue};
use crate::model::{
    alist_has, ADJConfig, ADJConfigV, AdjError, Board, BoardEntry, BoardEntryV, BoardV,
    Measurement, MeasurementV, Packet, PacketV,
};
use crate::store::{spec_file_at, FileStore, FileStoreV};
use crate::text::{
    dir_of, join_path, manifest_path, spec_board_dir, spec_dir_of, spec_join, spec_manifest_path,
    str_eq,
};

verus! {

/// What the snapshot holds at a path: nothing, text that is not JSON, or a
/// parsed document.
pub ghost enum DocLookup {
    Missing,
    Invalid,
    Valid(JVal),
}

/// The parse outcome at `path`.
pub open spec fn doc_at(files: Seq<(Seq<char>, Seq<char>)>, path: Seq<char>) -> DocLookup {
    match spec_file_at(files, path) {
        None => DocLookup::Missing,
        Some(t) => match json_doc_of(t) {
            None => DocLookup::Invalid,
            Some(d) => DocLookup::Valid(d),
        },
    }
}

/// Reads and parses the file at `path`: `None` where it is absent,
/// `Some(None)` where its text is not JSON.
fn doc_lookup(store: &FileStore, path: &str) -> (r: Option<Option<JsonValue>>)
    ensures
        match r {
            None => doc_at(store.deep_view().files, path@) is Missing,
            Some(None) => doc_at(store.deep_view().files, path@) is Invalid,
            Some(Some(d)) => doc_at(store.deep_view().files, path@) == DocLookup::Valid(
                d.deep_view(),
            ),
        },
{
    match store.file_at(path) {
        None => None,
        Some(content) => Some(parse_json(content.as_str())),
    }
}

/// The index pairs with later repetitions of a key dropped: the first
/// occurrence wins.
pub open spec fn spec_dedup(ps: Seq<(Seq<char>, Seq<char>)>) -> Seq<(Seq<char>, Seq<char>)>
    decreases ps.len(),
{
    if ps.len() == 0 {
        Seq::empty()
    } else {
        let front = spec_dedup(ps.drop_last());
        if alist_has(front, ps.last().0) {
            front
        } else {
            front.push(ps.last())
        }
    }
}

/// The raw board index: the pairs of `boards.json`, where that file holds
/// an object of strings; `None` where it is absent, unparsable or of any
/// other shape.
pub open spec fn spec_raw_index(s: FileStoreV) -> Option<Seq<(Seq<char>, Seq<char>)>> {
    match doc_at(s.files, "boards.json"@) {
        DocLookup::Valid(d) => dec_str_map(d),
        _ => None,
    }
}

/// The board index a load returns: the deduplicated raw index, or empty
/// where no usable `boards.json` exists.
pub open spec fn spec_index(s: FileStoreV) -> Seq<(Seq<char>, Seq<char>)> {
    match spec_raw_index(s) {
        Some(ps) => spec_dedup(ps),
        None => Seq::empty(),
    }
}

/// The measurements a list of referenced file names contributes, resolved
/// against `dir`, in list order; unusable files contribute nothing.
pub open spec fn spec_ms_files(files: Seq<Seq<char>>, dir: Seq<char>, s: FileStoreV) -> Seq<
    MeasurementV,
>
    decreases files.len(),
{
    if files.len() == 0 {
        Seq::empty()
    } else {
        spec_ms_files(files.drop_last(), dir, s) + match doc_at(
            s.files,
            spec_join(dir, files.last()),
        ) {
            DocLookup::Valid(d) => match dec_measurements_doc(d) {
                Some(ms) => ms,
                None => Seq::empty(),
            },
            _ => Seq::empty(),
        }
    }
}

/// The packets a list of referenced file names contributes.
pub open spec fn spec_ps_files(files: Seq<Seq<char>>, dir: Seq<char>, s: FileStoreV) -> Seq<
    PacketV,
>
    decreases files.len(),
{
    if files.len() == 0 {
        Seq::empty()
    } else {
        spec_ps_files(files.drop_last(), dir, s) + match doc_at(
            s.files,
            spec_join(dir, files.last()),
        ) {
            DocLookup::Valid(d) => match dec_packets_doc(d) {
                Some(ps) => ps,
                None => Seq::empty(),
            },
            _ => Seq::empty(),
        }
    }
}

/// The board a manifest document yields, its record files resolved against
/// `dir`.
pub open spec fn spec_board_of(name: Seq<char>, mdoc: JVal, dir: Seq<char>, s: FileStoreV) -> BoardEntryV {
    let mf = manifest_of(mdoc);
    BoardEntryV {
        name: name,
        board: BoardV {
            board_id: mf.board_id,
            board_ip: mf.board_ip,
            measurements: spec_ms_files(mf.measurement_files, dir, s),
            packets: spec_ps_files(mf.packet_files, dir, s),
        },
    }
}

/// The board a directory without a manifest file yields: all defaults.
pub open spec fn spec_default_entry(name: Seq<char>) -> BoardEntryV {
    BoardEntryV {
        name: name,
        board: BoardV {
            board_id: 0,
            board_ip: "0.0.0.0"@,
            measurements: Seq::empty(),
            packets: Seq::empty(),
        },
    }
}

/// The boards the index path yields, in index order: an entry whose
/// manifest file is missing or unparsable is skipped.
pub open spec fn spec_boards_from_index(
    pairs: Seq<(Seq<char>, Seq<char>)>,
    s: FileStoreV,
) -> Seq<BoardEntryV>
    decreases pairs.len(),
{
    if pairs.len() == 0 {
        Seq::empty()
    } else {
        spec_boards_from_index(pairs.drop_last(), s) + match doc_at(s.files, pairs.last().1) {
            DocLookup::Valid(d) => seq![
                spec_board_of(pairs.last().0, d, spec_dir_of(pairs.last().1), s),
            ],
            _ => Seq::empty(),
        }
    }
}

/// The boards the fallback scan yields, in directory order: a directory
/// without a manifest file yields the default board, one whose manifest
/// does not parse is skipped.
pub open spec fn spec_boards_from_dirs(dirs: Seq<Seq<char>>, s: FileStoreV) -> Seq<BoardEntryV>
    decreases dirs.len(),
{
    if dirs.len() == 0 {
        Seq::empty()
    } else {
        spec_boards_from_dirs(dirs.drop_last(), s) + match doc_at(
            s.files,
            spec_manifest_path(dirs.last()),
        ) {
            DocLookup::Missing => seq![spec_default_entry(dirs.last())],
            DocLookup::Invalid => Seq::empty(),
            DocLookup::Valid(d) => seq![
                spec_board_of(dirs.last(), d, spec_board_dir(dirs.last()), s),
            ],
        }
    }
}

/// The boards a load returns: through the index where a usable
/// `boards.json` exists, through the fallback scan otherwise.
pub open spec fn spec_boards(s: FileStoreV) -> Seq<BoardEntryV> {
    match spec_raw_index(s) {
        Some(ps) => spec_boards_from_index(spec_dedup(ps), s),
        None => spec_boards_from_dirs(s.board_dirs, s),
    }
}

/// Why a load failed: the mandatory general information was absent, or it
/// did not hold the JSON shape it must.
pub ghost enum LoadErr {
    MissingGeneral,
    BadGeneral,
}

/// Everything a load of the snapshot yields.
pub open spec fn spec_load(s: FileStoreV) -> Result<ADJConfigV, LoadErr> {
    match doc_at(s.files, "general_info.json"@) {
        DocLookup::Missing => Err(LoadErr::MissingGeneral),
        DocLookup::Invalid => Err(LoadErr::BadGeneral),
        DocLookup::Valid(d) => match dec_general(d) {
            None => Err(LoadErr::BadGeneral),
            Some(g) => Ok(
                ADJConfigV { general_info: g, boards: spec_boards(s), board_list: spec_index(s) },
            ),
        },
    }
}

} // verus!

verus! {

/// Whether some pair in the list carries the key.
fn contains_key(ps: &Vec<(String, String)>, k: &str) -> (r: bool)
    ensures
        r == alist_has(ps.deep_view(), k@),
{
    let ghost dv: Seq<(Seq<char>, Seq<char>)> = ps.deep_view();
    let mut i: usize = 0;
    while i < ps.len()
        invariant
            i <= ps.len(),
            dv == ps.deep_view(),
            dv.len() == ps@.len(),
            forall|n: int| 0 <= n < i ==> (#[trigger] dv[n]).0 != k@,
        decreases ps.len() - i,
    {
        if str_eq(ps[i].0.as_str(), k) {
            proof {
                assert(dv[i as int].0 == k@);
            }
            return true;
        }
        i = i + 1;
    }
    false
}

/// Drops later repetitions of a key; the first occurrence wins.
fn dedup_pairs(ps: Vec<(String, String)>) -> (r: Vec<(String, String)>)
    ensures
        r.deep_view() == spec_dedup(ps.deep_view()),
{
    let ghost dv: Seq<(Seq<char>, Seq<char>)> = ps.deep_view();
    let mut out: Vec<(String, String)> = Vec::new();
    proof {
        assert(out.deep_view() =~= spec_dedup(dv.take(0)));
    }
    let mut i: usize = 0;
    while i < ps.len()
        invariant
            i <= ps.len(),
            dv == ps.deep_view(),
            dv.len() == ps@.len(),
            out.deep_view() == spec_dedup(dv.take(i as int)),
        decreases ps.len() - i,
    {
        proof {
            assert(dv[i as int] == (ps@[i as int].0@, ps@[i as int].1@));
            assert(dv.take(i + 1).drop_last() =~= dv.take(i as int));
            assert(dv.take(i + 1).last() == dv[i as int]);
        }
        let ghost out0: Seq<(Seq<char>, Seq<char>)> = out.deep_view();
        if !contains_key(&out, ps[i].0.as_str()) {
            out.push((ps[i].0.clone(), ps[i].1.clone()));
            proof {
                assert(out.deep_view() =~= out0.push(dv[i as int]));
            }
        }
        i = i + 1;
    }
    proof {
        assert(dv.take(dv.len() as int) =~= dv);
    }
    out
}

/// Loads the board index from `boards.json`: empty where the file is
/// absent, unparsable or not an object of strings.
pub fn load_board_list(store: &FileStore) -> (r: Vec<(String, String)>)
    ensures
        r.deep_view() == spec_index(store.deep_view()),
{
    match doc_lookup(store, "boards.json") {
        Some(Some(doc)) => match decode_str_map(&doc) {
            Some(ps) => dedup_pairs(ps),
            None => Vec::new(),
        },
        _ => Vec::new(),
    }
}

/// Loads the measurements the referenced files contribute, resolved
/// against `dir`, skipping unusable files.
fn load_measurements_from_files(files: &Vec<String>, dir: &str, store: &FileStore) -> (r: Vec<
    Measurement,
>)
    ensures
        r.deep_view() == spec_ms_files(files.deep_view(), dir@, store.deep_view()),
{
    let ghost fv: Seq<Seq<char>> = files.deep_view();
    let ghost sv: FileStoreV = store.deep_view();
    let mut out: Vec<Measurement> = Vec::new();
    proof {
        assert(out.deep_view() =~= spec_ms_files(fv.take(0), dir@, sv));
    }
    let mut i: usize = 0;
    while i < files.len()
        invariant
            i <= files.len(),
            fv == files.deep_view(),
            sv == store.deep_view(),
            fv.len() == files@.len(),
            out.deep_view() == spec_ms_files(fv.take(i as int), dir@, sv),
        decreases files.len() - i,
    {
        proof {
            assert(fv[i as int] == files@[i as int]@);
            assert(fv.take(i + 1).drop_last() =~= fv.take(i as int));
            assert(fv.take(i + 1).last() == fv[i as int]);
        }
        let ghost out0: Seq<MeasurementV> = out.deep_view();
        let path = join_path(dir, files[i].as_str());
        match doc_lookup(store, path.as_str()) {
            Some(Some(doc)) => match decode_measurements(&doc) {
                Some(ms) => {
                    let mut ms = ms;
                    let ghost msv: Seq<MeasurementV> = ms.deep_view();
                    out.append(&mut ms);
                    proof {
                        assert(out.deep_view() =~= out0 + msv);
                    }
                },
                None => {
                    proof {
                        assert(out.deep_view() =~= out0 + Seq::<MeasurementV>::empty());
                    }
                },
            },
            _ => {
                proof {
                    assert(out.deep_view() =~= out0 + Seq::<MeasurementV>::empty());
                }
            },
        }
        i = i + 1;
    }
    proof {
        assert(fv.take(fv.len() as int) =~= fv);
    }
    out
}

/// Loads the packets the referenced files contribute, resolved against
/// `dir`, skipping unusable files.
fn load_packets_from_files(files: &Vec<String>, dir: &str, store: &FileStore) -> (r: Vec<Packet>)
    ensures
        r.deep_view() == spec_ps_files(files.deep_view(), dir@, store.deep_view()),
{
    let ghost fv: Seq<Seq<char>> = files.deep_view();
    let ghost sv: FileStoreV = store.deep_view();
    let mut out: Vec<Packet> = Vec::new();
    proof {
        assert(out.deep_view() =~= spec_ps_files(fv.take(0), dir@, sv));
    }
    let mut i: usize = 0;
    while i < files.len()
        invariant
            i <= files.len(),
            fv == files.deep_view(),
            sv == store.deep_view(),
            fv.len() == files@.len(),
            out.deep_view() == spec_ps_files(fv.take(i as int), dir@, sv),
        decreases files.len() - i,
    {
        proof {
            assert(fv[i as int] == files@[i as int]@);
            assert(fv.take(i + 1).drop_last() =~= fv.take(i as int));
            assert(fv.take(i + 1).last() == fv[i as int]);
        }
        let ghost out0: Seq<PacketV> = out.deep_view();
        let path = join_path(dir, files[i].as_str());
        match doc_lookup(store, path.as_str()) {
            Some(Some(doc)) => match decode_packets(&doc) {
                Some(ps) => {
                    let mut ps = ps;
                    let ghost psv: Seq<PacketV> = ps.deep_view();
                    out.append(&mut ps);
                    proof {
                        assert(out.deep_view() =~= out0 + psv);
                    }
                },
                None => {
                    proof {
                        assert(out.deep_view() =~= out0 + Seq::<PacketV>::empty());
                    }
                },
            },
            _ => {
                proof {
                    assert(out.deep_view() =~= out0 + Seq::<PacketV>::empty());
                }
            },
        }
        i = i + 1;
    }
    proof {
        assert(fv.take(fv.len() as int) =~= fv);
    }
    out
}

/// Builds one board from its parsed manifest document, loading its record
/// files relative to `dir`.
fn load_single_board_from_doc(name: String, mdoc: &JsonValue, dir: &str, store: &FileStore) -> (r:
    BoardEntry)
    ensures
        r.deep_view() == spec_board_of(name@, mdoc.deep_view(), dir@, store.deep_view()),
{
    let mf: Manifest = decode_manifest(mdoc);
    let measurements = load_measurements_from_files(&mf.measurement_files, dir, store);
    let packets = load_packets_from_files(&mf.packet_files, dir, store);
    BoardEntry {
        name,
        board: Board {
            board_id: mf.board_id,
            board_ip: mf.board_ip,
            measurements,
            packets,
        },
    }
}

/// Loads the boards of the index path, in index order, skipping entries
/// whose manifest file is missing or unparsable.
fn load_boards_from_index(pairs: &Vec<(String, String)>, store: &FileStore) -> (r: Vec<BoardEntry>)
    ensures
        r.deep_view() == spec_boards_from_index(pairs.deep_view(), store.deep_view()),
{
    let ghost pv: Seq<(Seq<char>, Seq<char>)> = pairs.deep_view();
    let ghost sv: FileStoreV = store.deep_view();
    let mut out: Vec<BoardEntry> = Vec::new();
    proof {
        assert(out.deep_view() =~= spec_boards_from_index(pv.take(0), sv));
    }
    let mut i: usize = 0;
    while i < pairs.len()
        invariant
            i <= pairs.len(),
            pv == pairs.deep_view(),
            sv == store.deep_view(),
            pv.len() == pairs@.len(),
            out.deep_view() == spec_boards_from_index(pv.take(i as int), sv),
        decreases pairs.len() - i,
    {
        proof {
            assert(pv[i as int] == (pairs@[i as int].0@, pairs@[i as int].1@));
            assert(pv.take(i + 1).drop_last() =~= pv.take(i as int));
            assert(pv.take(i + 1).last() == pv[i as int]);
        }
        let ghost out0: Seq<BoardEntryV> = out.deep_view();
        match doc_lookup(store, pairs[i].1.as_str()) {
            Some(Some(doc)) => {
                let dir = dir_of(pairs[i].1.as_str());
                let e = load_single_board_from_doc(pairs[i].0.clone(), &doc, dir.as_str(), store);
                out.push(e);
                proof {
                    assert(out.deep_view() =~= out0 + seq![
                        spec_board_of(pv[i as int].0, doc.deep_view(), spec_dir_of(pv[i as int].1), sv),
                    ]);
                }
            },
            _ => {
                proof {
                    assert(out.deep_view() =~= out0 + Seq::<BoardEntryV>::empty());
                }
            },
        }
        i = i + 1;
    }
    proof {
        assert(pv.take(pv.len() as int) =~= pv);
    }
    out
}

/// Loads the boards of the fallback scan, in directory order: a directory
/// without a manifest yields the default board, one whose manifest does
/// not parse is skipped.
fn load_boards_from_dirs(store: &FileStore) -> (r: Vec<BoardEntry>)
    ensures
        r.deep_view() == spec_boards_from_dirs(store.deep_view().board_dirs, store.deep_view()),
{
    let ghost dv: Seq<Seq<char>> = store.deep_view().board_dirs;
    let ghost sv: FileStoreV = store.deep_view();
    let mut out: Vec<BoardEntry> = Vec::new();
    proof {
        assert(out.deep_view() =~= spec_boards_from_dirs(dv.take(0), sv));
    }
    let mut i: usize = 0;
    while i < store.board_dirs.len()
        invariant
            i <= store.board_dirs.len(),
            dv == store.deep_view().board_dirs,
            sv == store.deep_view(),
            dv.len() == store.board_dirs@.len(),
            out.deep_view() == spec_boards_from_dirs(dv.take(i as int), sv),
        decreases store.board_dirs.len() - i,
    {
        proof {
            assert(dv[i as int] == store.board_dirs@[i as int]@);
            assert(dv.take(i + 1).drop_last() =~= dv.take(i as int));
            assert(dv.take(i + 1).last() == dv[i as int]);
        }
        let ghost out0: Seq<BoardEntryV> = out.deep_view();
        let name = store.board_dirs[i].clone();
        let mpath = manifest_path(name.as_str());
        let bdir = crate::text::board_dir(name.as_str());
        match doc_lookup(store, mpath.as_str()) {
            None => {
                let e = BoardEntry {
                    name,
                    board: Board {
                        board_id: 0,
                        board_ip: String::from_str("0.0.0.0"),
                        measurements: Vec::new(),
                        packets: Vec::new(),
                    },
                };
                proof {
                    assert(e.deep_view().board.measurements =~= Seq::<MeasurementV>::empty());
                    assert(e.deep_view().board.packets =~= Seq::<PacketV>::empty());
                    assert(e.deep_view() == spec_default_entry(dv[i as int]));
                }
                out.push(e);
                proof {
                    assert(out.deep_view() =~= out0 + seq![spec_default_entry(dv[i as int])]);
                }
            },
            Some(None) => {
                proof {
                    assert(out.deep_view() =~= out0 + Seq::<BoardEntryV>::empty());
                }
            },
            Some(Some(doc)) => {
                let e = load_single_board_from_doc(name, &doc, bdir.as_str(), store);
                out.push(e);
                proof {
                    assert(out.deep_view() =~= out0 + seq![
                        spec_board_of(dv[i as int], doc.deep_view(), spec_board_dir(dv[i as int]), sv),
                    ]);
                }
            },
        }
        i = i + 1;
    }
    proof {
        assert(dv.take(dv.len() as int) =~= dv);
    }
    out
}

impl ADJConfig {
    /// Assembles the whole configuration from a snapshot of the
    /// configuration directory.  Only the general information is
    /// mandatory: it is `NotFound` where `general_info.json` is absent and
    /// `ParseFailure` where that file is not the JSON object it must be;
    /// every per-board or per-file problem is tolerated by skipping.
    pub fn load_from_directory(store: &FileStore) -> (r: Result<ADJConfig, AdjError>)
        ensures
            match r {
                Ok(c) => spec_load(store.deep_view()) == Ok::<ADJConfigV, LoadErr>(c.deep_view()),
                Err(e) => match spec_load(store.deep_view()) {
                    Ok(_) => false,
                    Err(LoadErr::MissingGeneral) => e is NotFound,
                    Err(LoadErr::BadGeneral) => e is ParseFailure,
                },
            },
    {
        let general_info = match doc_lookup(store, "general_info.json") {
            None => {
                return Err(AdjError::NotFound(String::from_str("general_info.json")));
            },
            Some(None) => {
                return Err(AdjError::ParseFailure(String::from_str("general_info.json")));
            },
            Some(Some(doc)) => match decode_general(&doc) {
                None => {
                    return Err(AdjError::ParseFailure(String::from_str("general_info.json")));
                },
                Some(g) => g,
            },
        };
        let board_list = load_board_list(store);
        let boards = match doc_lookup(store, "boards.json") {
            Some(Some(doc)) => match decode_str_map(&doc) {
                Some(ps) => {
                    let deduped = dedup_pairs(ps);
                    load_boards_from_index(&deduped, store)
                },
                None => load_boards_from_dirs(store),
            },
            _ => load_boards_from_dirs(store),
        };
        Ok(ADJConfig { general_info, boards, board_list })
    }
}

} // verus!
