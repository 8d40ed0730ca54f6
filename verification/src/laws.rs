//! Laws of the engine, stated over the same spec functions its public
//! contracts use, so that what the contracts promise composes into the
//! properties a caller cares about.

use vstd::prelude::*;
use crate::assemble::{
    doc_at, spec_boards_from_dirs, spec_default_entry, spec_load, spec_raw_index, DocLookup,
};
use crate::codec::{dec_general, spec_manifest_doc, spec_measurements_doc, spec_packets_doc};
use crate::model::{ADJConfigV, BoardEntryV, PacketV};
use crate::text::{spec_board_dir, spec_join, spec_manifest_path, spec_measurements_file};
use crate::write::{board_files, data_packets, order_packets, spec_save_files};

verus! {

/// What a save writes is a function of the configuration's mathematical
/// value alone: two equal configurations produce byte-identical file
/// lists, so saving the same configuration twice writes the same bytes
/// twice.
pub proof fn lemma_save_idempotent(c1: ADJConfigV, c2: ADJConfigV)
    requires
        c1 == c2,
    ensures
        spec_save_files(c1) == spec_save_files(c2),
{
}

/// Every packet lands in exactly one partition: the lengths add up, the
/// data partition holds no order packet, and the order partition holds
/// nothing else.
pub proof fn lemma_partition(ps: Seq<PacketV>)
    ensures
        data_packets(ps).len() + order_packets(ps).len() == ps.len(),
        forall|i: int|
            0 <= i < data_packets(ps).len() ==> (#[trigger] data_packets(ps)[i]).packet_type
                != "order"@,
        forall|i: int|
            0 <= i < order_packets(ps).len() ==> (#[trigger] order_packets(ps)[i]).packet_type
                == "order"@,
    decreases ps.len(),
{
    if ps.len() > 0 {
        lemma_partition(ps.drop_last());
    }
}

/// A board all of whose packets are orders has an empty data partition
/// and keeps every packet in the order partition.
pub proof fn lemma_all_orders(ps: Seq<PacketV>)
    requires
        forall|i: int| 0 <= i < ps.len() ==> (#[trigger] ps[i]).packet_type == "order"@,
    ensures
        data_packets(ps).len() == 0,
        order_packets(ps) == ps,
    decreases ps.len(),
{
    if ps.len() > 0 {
        assert(forall|i: int|
            0 <= i < ps.drop_last().len() ==> (#[trigger] ps.drop_last()[i]).packet_type
                == "order"@);
        lemma_all_orders(ps.drop_last());
        assert(order_packets(ps) =~= ps);
    }
}

/// A board all of whose packets are orders writes no `packets.json`: its
/// save is exactly the regenerated manifest, the measurements file, and
/// `orders.json` with every packet.
pub proof fn lemma_all_orders_files(e: BoardEntryV)
    requires
        e.board.packets.len() > 0,
        forall|i: int|
            0 <= i < e.board.packets.len() ==> (#[trigger] e.board.packets[i]).packet_type
                == "order"@,
    ensures
        board_files(e) == seq![
            (spec_manifest_path(e.name), spec_manifest_doc(e.name, e.board)),
            (
                spec_join(spec_board_dir(e.name), spec_measurements_file(e.name)),
                spec_measurements_doc(e.board.measurements),
            ),
            (
                spec_join(spec_board_dir(e.name), "orders.json"@),
                spec_packets_doc(e.board.packets),
            ),
        ],
{
    lemma_all_orders(e.board.packets);
    assert(board_files(e) =~= seq![
        (spec_manifest_path(e.name), spec_manifest_doc(e.name, e.board)),
        (
            spec_join(spec_board_dir(e.name), spec_measurements_file(e.name)),
            spec_measurements_doc(e.board.measurements),
        ),
        (spec_join(spec_board_dir(e.name), "orders.json"@), spec_packets_doc(e.board.packets)),
    ]);
}

/// With no usable board index, a load still succeeds whenever the general
/// information is usable, and its boards are exactly what the fallback
/// scan of the board directories yields.
pub proof fn lemma_fallback_scan(s: crate::store::FileStoreV)
    requires
        spec_raw_index(s) is None,
        match doc_at(s.files, "general_info.json"@) {
            DocLookup::Valid(d) => dec_general(d) is Some,
            _ => false,
        },
    ensures
        spec_load(s) is Ok,
        spec_load(s)->Ok_0.boards == spec_boards_from_dirs(s.board_dirs, s),
        spec_load(s)->Ok_0.board_list.len() == 0,
{
    assert(spec_load(s)->Ok_0.board_list =~= Seq::<(Seq<char>, Seq<char>)>::empty());
}

/// A board directory whose manifest file is missing still yields a board
/// — the default one: id `0`, ip `0.0.0.0`, no measurements, no packets —
/// while the rest of the scan proceeds.
pub proof fn lemma_tolerant_missing_manifest(
    dirs: Seq<Seq<char>>,
    s: crate::store::FileStoreV,
    i: int,
)
    requires
        0 <= i < dirs.len(),
        doc_at(s.files, spec_manifest_path(dirs[i])) is Missing,
    ensures
        spec_boards_from_dirs(dirs, s).contains(spec_default_entry(dirs[i])),
    decreases dirs.len(),
{
    if i == dirs.len() - 1 {
        let front = spec_boards_from_dirs(dirs.drop_last(), s);
        let whole = spec_boards_from_dirs(dirs, s);
        assert(whole == front + seq![spec_default_entry(dirs[i])]);
        assert(whole[front.len() as int] == spec_default_entry(dirs[i]));
    } else {
        assert(dirs.drop_last()[i] == dirs[i]);
        lemma_tolerant_missing_manifest(dirs.drop_last(), s, i);
        let front = spec_boards_from_dirs(dirs.drop_last(), s);
        let whole = spec_boards_from_dirs(dirs, s);
        let j = choose|j: int|
            0 <= j < front.len() && front[j] == spec_default_entry(dirs[i]);
        assert(whole[j] == spec_default_entry(dirs[i]));
    }
}

} // verus!

use crate::codec::{
    dec_measurement, dec_measurement_list, dec_measurements_doc, dec_packet, dec_packet_list,
    dec_packets_doc, dec_str_entries, dec_str_list, dec_str_map, dec_u16_entries, dec_u32_entries,
    enc_index_entries, enc_measurement, enc_measurements, enc_packet, enc_packets, enc_str_entries,
    enc_strs, enc_u16_entries, enc_u32_entries, jobj_get, manifest_of, spec_general_doc,
    spec_index_doc,
};
use crate::json::JVal;
use crate::model::{alist_has, BoardV, GeneralInfoV, MeasurementV};

verus! {

/// A key that no entry carries is not found.
pub proof fn lemma_jobj_get_absent(es: Seq<(Seq<char>, JVal)>, k: Seq<char>)
    requires
        forall|j: int| 0 <= j < es.len() ==> (#[trigger] es[j]).0 != k,
    ensures
        jobj_get(es, k) is None,
    decreases es.len(),
{
    if es.len() > 0 {
        assert(forall|j: int|
            0 <= j < es.drop_first().len() ==> (#[trigger] es.drop_first()[j]).0 != k);
        lemma_jobj_get_absent(es.drop_first(), k);
    }
}

/// The first entry that carries a key decides the lookup.
pub proof fn lemma_jobj_get_found(es: Seq<(Seq<char>, JVal)>, i: int, k: Seq<char>)
    requires
        0 <= i < es.len(),
        es[i].0 == k,
        forall|j: int| 0 <= j < i ==> (#[trigger] es[j]).0 != k,
    ensures
        jobj_get(es, k) == Some(es[i].1),
    decreases es.len(),
{
    if i > 0 {
        assert(es.drop_first()[i - 1] == es[i]);
        assert(forall|j: int|
            0 <= j < i - 1 ==> (#[trigger] es.drop_first()[j]) == es[j + 1]);
        lemma_jobj_get_found(es.drop_first(), i - 1, k);
    }
}

/// Decoding undoes encoding for a `u16` map.
pub proof fn lemma_u16_entries_rt(ps: Seq<(Seq<char>, u16)>)
    ensures
        dec_u16_entries(enc_u16_entries(ps)) == Some(ps),
    decreases ps.len(),
{
    if ps.len() > 0 {
        lemma_u16_entries_rt(ps.drop_last());
        assert(enc_u16_entries(ps).drop_last() =~= enc_u16_entries(ps.drop_last()));
        assert(dec_u16_entries(enc_u16_entries(ps)) == Some(
            ps.drop_last().push((ps.last().0, ps.last().1)),
        ));
        assert(ps.drop_last().push((ps.last().0, ps.last().1)) =~= ps);
    }
}

/// Decoding undoes encoding for a string map.
pub proof fn lemma_str_entries_rt(ps: Seq<(Seq<char>, Seq<char>)>)
    ensures
        dec_str_entries(enc_str_entries(ps)) == Some(ps),
    decreases ps.len(),
{
    if ps.len() > 0 {
        lemma_str_entries_rt(ps.drop_last());
        assert(enc_str_entries(ps).drop_last() =~= enc_str_entries(ps.drop_last()));
        assert(dec_str_entries(enc_str_entries(ps)) == Some(
            ps.drop_last().push((ps.last().0, ps.last().1)),
        ));
        assert(ps.drop_last().push((ps.last().0, ps.last().1)) =~= ps);
    }
}

/// Decoding undoes encoding for a `u32` map.
pub proof fn lemma_u32_entries_rt(ps: Seq<(Seq<char>, u32)>)
    ensures
        dec_u32_entries(enc_u32_entries(ps)) == Some(ps),
    decreases ps.len(),
{
    if ps.len() > 0 {
        lemma_u32_entries_rt(ps.drop_last());
        assert(enc_u32_entries(ps).drop_last() =~= enc_u32_entries(ps.drop_last()));
        assert(dec_u32_entries(enc_u32_entries(ps)) == Some(
            ps.drop_last().push((ps.last().0, ps.last().1)),
        ));
        assert(ps.drop_last().push((ps.last().0, ps.last().1)) =~= ps);
    }
}

/// Decoding undoes encoding for the general information.
pub proof fn lemma_general_rt(g: GeneralInfoV)
    ensures
        dec_general(spec_general_doc(g)) == Some(g),
{
    reveal_strlit("ports");
    reveal_strlit("addresses");
    reveal_strlit("units");
    reveal_strlit("message_ids");
    let es = spec_general_doc(g)->Obj_0;
    assert("ports"@.len() == 5 && "addresses"@.len() == 9 && "units"@.len() == 5
        && "message_ids"@.len() == 11);
    assert("ports"@[0] == 'p' && "units"@[0] == 'u');
    assert("ports"@ != "addresses"@ && "ports"@ != "units"@ && "ports"@ != "message_ids"@);
    assert("addresses"@ != "units"@ && "addresses"@ != "message_ids"@ && "units"@
        != "message_ids"@);
    lemma_jobj_get_found(es, 0, "ports"@);
    lemma_jobj_get_found(es, 1, "addresses"@);
    lemma_jobj_get_found(es, 2, "units"@);
    lemma_jobj_get_found(es, 3, "message_ids"@);
    lemma_u16_entries_rt(g.ports);
    lemma_str_entries_rt(g.addresses);
    lemma_str_entries_rt(g.units);
    lemma_u32_entries_rt(g.message_ids);
}

/// Decoding undoes encoding for a list of strings.
pub proof fn lemma_str_list_rt(ss: Seq<Seq<char>>)
    ensures
        dec_str_list(enc_strs(ss)) == Some(ss),
    decreases ss.len(),
{
    if ss.len() > 0 {
        lemma_str_list_rt(ss.drop_last());
        assert(enc_strs(ss).drop_last() =~= enc_strs(ss.drop_last()));
        assert(dec_str_list(enc_strs(ss)) == Some(ss.drop_last().push(ss.last())));
        assert(ss.drop_last().push(ss.last()) =~= ss);
    }
}

} // verus!

use crate::codec::{opt_list_entry, opt_range_entry, opt_str_entry, ManifestV};

verus! {

/// Decoding undoes encoding for one measurement record.
pub proof fn lemma_measurement_rt(m: MeasurementV)
    ensures
        dec_measurement(enc_measurement(m)) == Some(m),
{
    reveal_strlit("id");
    reveal_strlit("name");
    reveal_strlit("type");
    reveal_strlit("podUnits");
    reveal_strlit("displayUnits");
    reveal_strlit("enumValues");
    reveal_strlit("safeRange");
    reveal_strlit("warningRange");
    assert("id"@.len() == 2 && "name"@.len() == 4 && "type"@.len() == 4 && "podUnits"@.len() == 8
        && "displayUnits"@.len() == 12 && "enumValues"@.len() == 10 && "safeRange"@.len() == 9
        && "warningRange"@.len() == 12);
    assert("name"@[0] == 'n' && "type"@[0] == 't' && "displayUnits"@[0] == 'd'
        && "warningRange"@[0] == 'w');
    let mand = seq![
        ("id"@, JVal::Str(m.id)),
        ("name"@, JVal::Str(m.name)),
        ("type"@, JVal::Str(m.measurement_type)),
    ];
    let p1 = opt_str_entry("podUnits"@, m.pod_units);
    let p2 = opt_str_entry("displayUnits"@, m.display_units);
    let p3 = opt_list_entry("enumValues"@, m.enum_values);
    let p4 = opt_range_entry("safeRange"@, m.safe_range);
    let p5 = opt_range_entry("warningRange"@, m.warning_range);
    let es = enc_measurement(m)->Obj_0;
    assert(es == mand + p1 + p2 + p3 + p4 + p5);
    assert(es.len() == 3 + p1.len() + p2.len() + p3.len() + p4.len() + p5.len());
    lemma_jobj_get_found(es, 0, "id"@);
    lemma_jobj_get_found(es, 1, "name"@);
    lemma_jobj_get_found(es, 2, "type"@);
    match m.pod_units {
        Some(s) => {
            assert(es[3] == p1[0]);
            lemma_jobj_get_found(es, 3, "podUnits"@);
        },
        None => {
            assert forall|j: int| 0 <= j < es.len() implies (#[trigger] es[j]).0
                != "podUnits"@ by {}
            lemma_jobj_get_absent(es, "podUnits"@);
        },
    }
    match m.display_units {
        Some(s) => {
            let i = 3 + p1.len() as int;
            assert(es[i] == p2[0]);
            lemma_jobj_get_found(es, i, "displayUnits"@);
        },
        None => {
            assert forall|j: int| 0 <= j < es.len() implies (#[trigger] es[j]).0
                != "displayUnits"@ by {}
            lemma_jobj_get_absent(es, "displayUnits"@);
        },
    }
    match m.enum_values {
        Some(l) => {
            let i = 3 + p1.len() as int + p2.len() as int;
            assert(es[i] == p3[0]);
            lemma_jobj_get_found(es, i, "enumValues"@);
            lemma_str_list_rt(l);
        },
        None => {
            assert forall|j: int| 0 <= j < es.len() implies (#[trigger] es[j]).0
                != "enumValues"@ by {}
            lemma_jobj_get_absent(es, "enumValues"@);
        },
    }
    match m.safe_range {
        Some((a, b)) => {
            let i = 3 + p1.len() as int + p2.len() as int + p3.len() as int;
            assert(es[i] == p4[0]);
            lemma_jobj_get_found(es, i, "safeRange"@);
        },
        None => {
            assert forall|j: int| 0 <= j < es.len() implies (#[trigger] es[j]).0
                != "safeRange"@ by {}
            lemma_jobj_get_absent(es, "safeRange"@);
        },
    }
    match m.warning_range {
        Some((a, b)) => {
            let i = 3 + p1.len() as int + p2.len() as int + p3.len() as int + p4.len() as int;
            assert(es[i] == p5[0]);
            lemma_jobj_get_found(es, i, "warningRange"@);
        },
        None => {
            assert forall|j: int| 0 <= j < es.len() implies (#[trigger] es[j]).0
                != "warningRange"@ by {}
            lemma_jobj_get_absent(es, "warningRange"@);
        },
    }
}

/// Decoding undoes encoding for a list of measurements.
pub proof fn lemma_measurements_rt(ms: Seq<MeasurementV>)
    ensures
        dec_measurement_list(enc_measurements(ms)) == Some(ms),
    decreases ms.len(),
{
    if ms.len() > 0 {
        lemma_measurements_rt(ms.drop_last());
        lemma_measurement_rt(ms.last());
        assert(enc_measurements(ms).drop_last() =~= enc_measurements(ms.drop_last()));
        assert(dec_measurement_list(enc_measurements(ms)) == Some(
            ms.drop_last().push(ms.last()),
        ));
        assert(ms.drop_last().push(ms.last()) =~= ms);
    }
}

/// Decoding undoes encoding for one packet record.
pub proof fn lemma_packet_rt(p: PacketV)
    ensures
        dec_packet(enc_packet(p)) == Some(p),
{
    reveal_strlit("type");
    reveal_strlit("name");
    reveal_strlit("variables");
    reveal_strlit("id");
    assert("type"@.len() == 4 && "name"@.len() == 4 && "variables"@.len() == 9 && "id"@.len()
        == 2);
    assert("type"@[0] == 't' && "name"@[0] == 'n');
    let mand = seq![
        ("type"@, JVal::Str(p.packet_type)),
        ("name"@, JVal::Str(p.name)),
        ("variables"@, JVal::Arr(enc_strs(p.variables))),
    ];
    let tail: Seq<(Seq<char>, JVal)> = match p.id {
        None => Seq::empty(),
        Some(n) => seq![("id"@, JVal::UInt(n as u64))],
    };
    let es = enc_packet(p)->Obj_0;
    assert(es == mand + tail);
    lemma_jobj_get_found(es, 0, "type"@);
    lemma_jobj_get_found(es, 1, "name"@);
    lemma_jobj_get_found(es, 2, "variables"@);
    lemma_str_list_rt(p.variables);
    match p.id {
        Some(n) => {
            assert(es[3] == tail[0]);
            lemma_jobj_get_found(es, 3, "id"@);
        },
        None => {
            assert forall|j: int| 0 <= j < es.len() implies (#[trigger] es[j]).0 != "id"@ by {}
            lemma_jobj_get_absent(es, "id"@);
        },
    }
}

/// Decoding undoes encoding for a list of packets.
pub proof fn lemma_packets_rt(ps: Seq<PacketV>)
    ensures
        dec_packet_list(enc_packets(ps)) == Some(ps),
    decreases ps.len(),
{
    if ps.len() > 0 {
        lemma_packets_rt(ps.drop_last());
        lemma_packet_rt(ps.last());
        assert(enc_packets(ps).drop_last() =~= enc_packets(ps.drop_last()));
        assert(dec_packet_list(enc_packets(ps)) == Some(ps.drop_last().push(ps.last())));
        assert(ps.drop_last().push(ps.last()) =~= ps);
    }
}

/// Reading back a regenerated manifest yields the board's identity, its
/// one-element measurements file list, and the fixed packets file list.
pub proof fn lemma_manifest_rt(name: Seq<char>, b: BoardV)
    ensures
        manifest_of(spec_manifest_doc(name, b)) == (ManifestV {
            board_id: b.board_id,
            board_ip: b.board_ip,
            measurement_files: seq![spec_measurements_file(name)],
            packet_files: seq!["packets.json"@, "orders.json"@],
        }),
{
    reveal_strlit("board_id");
    reveal_strlit("board_ip");
    reveal_strlit("measurements");
    reveal_strlit("packets");
    assert("board_id"@.len() == 8 && "board_ip"@.len() == 8 && "measurements"@.len() == 12
        && "packets"@.len() == 7);
    assert("board_id"@[7] == 'd' && "board_ip"@[7] == 'p');
    let es = spec_manifest_doc(name, b)->Obj_0;
    lemma_jobj_get_found(es, 0, "board_id"@);
    lemma_jobj_get_found(es, 1, "board_ip"@);
    lemma_jobj_get_found(es, 2, "measurements"@);
    lemma_jobj_get_found(es, 3, "packets"@);
    assert((b.board_id as u64) % 0x1_0000_0000 == b.board_id as u64);
    assert(crate::codec::str_elems(seq![JVal::Str(spec_measurements_file(name))]) =~= seq![
        spec_measurements_file(name),
    ]) by {
        reveal_with_fuel(crate::codec::str_elems, 3);
        assert(seq![JVal::Str(spec_measurements_file(name))].drop_last()
            =~= Seq::<JVal>::empty());
    }
    assert(crate::codec::str_elems(
        seq![JVal::Str("packets.json"@), JVal::Str("orders.json"@)],
    ) =~= seq!["packets.json"@, "orders.json"@]) by {
        reveal_with_fuel(crate::codec::str_elems, 4);
        let pl = seq![JVal::Str("packets.json"@), JVal::Str("orders.json"@)];
        assert(pl.drop_last() =~= seq![JVal::Str("packets.json"@)]);
        assert(seq![JVal::Str("packets.json"@)].drop_last() =~= Seq::<JVal>::empty());
        assert(crate::codec::str_elems(seq![JVal::Str("packets.json"@)]) =~= seq![
            "packets.json"@,
        ]);
    }
}

/// The canonical board index: each board's name mapped to its canonical
/// manifest path, in board order.
pub open spec fn canonical_index(bs: Seq<BoardEntryV>) -> Seq<(Seq<char>, Seq<char>)>
    decreases bs.len(),
{
    if bs.len() == 0 {
        Seq::empty()
    } else {
        canonical_index(bs.drop_last()).push(
            (bs.last().name, spec_manifest_path(bs.last().name)),
        )
    }
}

/// Decoding undoes encoding for the board index document.
pub proof fn lemma_index_rt(bs: Seq<BoardEntryV>)
    ensures
        dec_str_map(spec_index_doc(bs)) == Some(canonical_index(bs)),
    decreases bs.len(),
{
    if bs.len() > 0 {
        lemma_index_rt(bs.drop_last());
        assert(enc_index_entries(bs).drop_last() =~= enc_index_entries(bs.drop_last()));
        assert(dec_str_entries(enc_index_entries(bs)) == Some(
            canonical_index(bs.drop_last()).push(
                (bs.last().name, spec_manifest_path(bs.last().name)),
            ),
        ));
    }
}

} // verus!

verus! {

/// Text that holds no slash.
pub open spec fn slash_free(n: Seq<char>) -> bool {
    forall|i: int| 0 <= i < n.len() ==> n[i] != '/'
}

/// A name the canonical layout keeps apart from every fixed file name: no
/// slash, and not the stem of one of the fixed packet file names.
pub open spec fn good_board_name(n: Seq<char>) -> bool {
    slash_free(n) && n != "packets"@ && n != "orders"@
}

/// A board path never collides with the two root files.
pub proof fn lemma_board_path_not_head(n: Seq<char>, tail: Seq<char>)
    ensures
        spec_join(spec_board_dir(n), tail) != "general_info.json"@,
        spec_join(spec_board_dir(n), tail) != "boards.json"@,
{
    reveal_strlit("boards/");
    reveal_strlit("general_info.json");
    reveal_strlit("boards.json");
    let p = spec_join(spec_board_dir(n), tail);
    assert("boards/"@.len() == 7);
    assert(p.len() == 7 + n.len() + 1 + tail.len());
    assert(p[6] == "boards/"@[6]);
    assert(p[6] == '/');
    assert(p[0] == 'b');
    assert("general_info.json"@[0] == 'g');
    assert("boards.json"@[6] == '.');
    assert("general_info.json"@.len() == 17 && "boards.json"@.len() == 11);
}

/// Paths under the directories of two different slash-free board names
/// never collide.
pub proof fn lemma_board_paths_cross(a: Seq<char>, b: Seq<char>, ta: Seq<char>, tb: Seq<char>)
    requires
        a != b,
        slash_free(a),
        slash_free(b),
    ensures
        spec_join(spec_board_dir(a), ta) != spec_join(spec_board_dir(b), tb),
{
    reveal_strlit("boards/");
    let p = spec_join(spec_board_dir(a), ta);
    let q = spec_join(spec_board_dir(b), tb);
    assert("boards/"@.len() == 7);
    assert(p.len() == 7 + a.len() + 1 + ta.len());
    assert(q.len() == 7 + b.len() + 1 + tb.len());
    if p == q {
        if a.len() == b.len() {
            assert forall|i: int| 0 <= i < a.len() implies a[i] == b[i] by {
                assert(p[7 + i] == a[i]);
                assert(q[7 + i] == b[i]);
            }
            assert(a =~= b);
        } else if a.len() < b.len() {
            assert(p[7 + a.len() as int] == '/');
            assert(q[7 + a.len() as int] == b[a.len() as int]);
            assert(b[a.len() as int] != '/');
        } else {
            assert(q[7 + b.len() as int] == '/');
            assert(p[7 + b.len() as int] == a[b.len() as int]);
            assert(a[b.len() as int] != '/');
        }
    }
}

/// Joining the same directory with different tails gives different paths.
pub proof fn lemma_join_tails_differ(n: Seq<char>, ta: Seq<char>, tb: Seq<char>)
    requires
        ta != tb,
    ensures
        spec_join(spec_board_dir(n), ta) != spec_join(spec_board_dir(n), tb),
{
    reveal_strlit("boards/");
    let p = spec_join(spec_board_dir(n), ta);
    let q = spec_join(spec_board_dir(n), tb);
    let base = 7 + n.len() + 1;
    assert(p.len() == base + ta.len());
    assert(q.len() == base + tb.len());
    if p == q {
        assert(ta.len() == tb.len());
        assert forall|i: int| 0 <= i < ta.len() implies ta[i] == tb[i] by {
            assert(p[base + i] == ta[i]);
            assert(q[base + i] == tb[i]);
        }
        assert(ta =~= tb);
    }
}

/// The manifest path is the board directory joined with `<name>.json`.
pub proof fn lemma_manifest_path_form(n: Seq<char>)
    ensures
        spec_manifest_path(n) == spec_join(spec_board_dir(n), n + ".json"@),
{
    reveal_strlit("boards/");
    reveal_strlit("/");
    assert(spec_manifest_path(n) =~= spec_join(spec_board_dir(n), n + ".json"@));
}

/// The four tails one board's files use, pairwise distinct for a good
/// board name.
pub proof fn lemma_tails_distinct(n: Seq<char>)
    requires
        good_board_name(n),
    ensures
        n + ".json"@ != spec_measurements_file(n),
        n + ".json"@ != "packets.json"@,
        n + ".json"@ != "orders.json"@,
        spec_measurements_file(n) != "packets.json"@,
        spec_measurements_file(n) != "orders.json"@,
        "packets.json"@ != "orders.json"@,
{
    reveal_strlit(".json");
    reveal_strlit("_measurements.json");
    reveal_strlit("packets.json");
    reveal_strlit("orders.json");
    reveal_strlit("packets");
    reveal_strlit("orders");
    assert(".json"@.len() == 5 && "_measurements.json"@.len() == 18 && "packets.json"@.len()
        == 12 && "orders.json"@.len() == 11);
    let mj = n + ".json"@;
    let mm = spec_measurements_file(n);
    assert(mj.len() == n.len() + 5);
    assert(mm.len() == n.len() + 18);
    if mj == "packets.json"@ {
        assert(n.len() == 7);
        assert forall|i: int| 0 <= i < 7 implies n[i] == "packets"@[i] by {
            assert(mj[i] == n[i]);
            assert("packets.json"@[i] == "packets"@[i]);
        }
        assert(n =~= "packets"@);
    }
    if mj == "orders.json"@ {
        assert(n.len() == 6);
        assert forall|i: int| 0 <= i < 6 implies n[i] == "orders"@[i] by {
            assert(mj[i] == n[i]);
            assert("orders.json"@[i] == "orders"@[i]);
        }
        assert(n =~= "orders"@);
    }
    if mm == "packets.json"@ {
        assert(n.len() + 18 == 12);
    }
    if mm == "orders.json"@ {
        assert(n.len() + 18 == 11);
    }
    if mj == mm {
        assert(mj.len() == mm.len());
        assert(false);
    }
}

} // verus!

use crate::json::{json_doc_of, json_text, JsonValue};
use crate::model::{alist_distinct, boards_distinct};
use crate::store::{spec_file_at, FileStoreV};
use crate::text::spec_dir_of;
use crate::write::{boards_files, lemma_texts_of_concat, spec_save, texts_of};
use crate::assemble::{
    spec_board_of, spec_boards, spec_boards_from_index, spec_dedup, spec_index, spec_ms_files,
    spec_ps_files, LoadErr,
};

verus! {

/// In a concatenation, the left part decides a lookup wherever it holds
/// the path.
pub proof fn lemma_file_at_concat(
    a: Seq<(Seq<char>, Seq<char>)>,
    b: Seq<(Seq<char>, Seq<char>)>,
    p: Seq<char>,
)
    ensures
        spec_file_at(a + b, p) == match spec_file_at(a, p) {
            Some(x) => Some(x),
            None => spec_file_at(b, p),
        },
    decreases a.len(),
{
    if a.len() == 0 {
        assert(a + b =~= b);
    } else {
        assert((a + b)[0] == a[0]);
        assert((a + b).drop_first() =~= a.drop_first() + b);
        lemma_file_at_concat(a.drop_first(), b, p);
    }
}

/// A path no entry carries is not found.
pub proof fn lemma_file_at_absent(files: Seq<(Seq<char>, Seq<char>)>, p: Seq<char>)
    requires
        forall|j: int| 0 <= j < files.len() ==> (#[trigger] files[j]).0 != p,
    ensures
        spec_file_at(files, p) is None,
    decreases files.len(),
{
    if files.len() > 0 {
        assert(forall|j: int|
            0 <= j < files.drop_first().len() ==> (#[trigger] files.drop_first()[j]).0 != p);
        lemma_file_at_absent(files.drop_first(), p);
    }
}

/// Rendered documents line up with their sources entry by entry.
pub proof fn lemma_texts_of_index(ds: Seq<(Seq<char>, JVal)>)
    ensures
        texts_of(ds).len() == ds.len(),
        forall|i: int|
            0 <= i < ds.len() ==> texts_of(ds)[i] == ((#[trigger] ds[i]).0, json_text(
                ds[i].1,
                0,
            )),
    decreases ds.len(),
{
    if ds.len() > 0 {
        lemma_texts_of_index(ds.drop_last());
        assert forall|i: int| 0 <= i < ds.len() implies texts_of(ds)[i] == ((#[trigger] ds[i]).0,
            json_text(ds[i].1, 0)) by {
            if i < ds.len() - 1 {
                assert(ds.drop_last()[i] == ds[i]);
            }
        }
    }
}

/// The directory of a path joined from a directory and a slash-free file
/// name is that directory.
pub proof fn lemma_dir_of_join(d: Seq<char>, f: Seq<char>)
    requires
        d.len() > 0,
        slash_free(f),
    ensures
        spec_dir_of(d + seq!['/'] + f) == d,
    decreases f.len(),
{
    let p = d + seq!['/'] + f;
    if f.len() == 0 {
        assert(p.last() == '/');
        assert(p.drop_last() =~= d);
    } else {
        assert(p.last() == f.last());
        assert(f.last() != '/');
        assert(p.drop_last() =~= d + seq!['/'] + f.drop_last());
        assert(slash_free(f.drop_last())) by {
            assert(forall|i: int| 0 <= i < f.drop_last().len() ==> #[trigger] f.drop_last()[i]
                == f[i]);
        }
        lemma_dir_of_join(d, f.drop_last());
    }
}

/// A list whose keys are already distinct survives deduplication.
pub proof fn lemma_dedup_distinct(ps: Seq<(Seq<char>, Seq<char>)>)
    requires
        alist_distinct(ps),
    ensures
        spec_dedup(ps) == ps,
    decreases ps.len(),
{
    if ps.len() > 0 {
        assert(alist_distinct(ps.drop_last())) by {
            assert(forall|i: int| 0 <= i < ps.drop_last().len() ==> #[trigger] ps.drop_last()[i]
                == ps[i]);
        }
        lemma_dedup_distinct(ps.drop_last());
        assert(!alist_has(ps.drop_last(), ps.last().0)) by {
            if alist_has(ps.drop_last(), ps.last().0) {
                let i = choose|i: int|
                    0 <= i < ps.drop_last().len() && ps.drop_last()[i].0 == ps.last().0;
                assert(ps[i].0 == ps[ps.len() - 1].0);
            }
        }
        assert(spec_dedup(ps) == ps.drop_last().push(ps.last()));
        assert(ps.drop_last().push(ps.last()) =~= ps);
    }
}

/// The canonical index lines up with the boards entry by entry.
pub proof fn lemma_canonical_index(bs: Seq<BoardEntryV>)
    ensures
        canonical_index(bs).len() == bs.len(),
        forall|i: int|
            0 <= i < bs.len() ==> canonical_index(bs)[i] == ((#[trigger] bs[i]).name,
                spec_manifest_path(bs[i].name)),
    decreases bs.len(),
{
    if bs.len() > 0 {
        lemma_canonical_index(bs.drop_last());
        assert forall|i: int| 0 <= i < bs.len() implies canonical_index(bs)[i] == ((
        #[trigger] bs[i]).name, spec_manifest_path(bs[i].name)) by {
            if i < bs.len() - 1 {
                assert(bs.drop_last()[i] == bs[i]);
            }
        }
    }
}

} // verus!

verus! {

/// Whole-configuration well-formedness, as the writer's caller maintains
/// it: distinct well-formed board names, the board list synchronized with
/// the boards at their canonical paths, and each board's packets already
/// in partition order (data packets first, then orders).
pub open spec fn wf_config(c: ADJConfigV) -> bool {
    &&& boards_distinct(c.boards)
    &&& forall|i: int| 0 <= i < c.boards.len() ==> good_board_name((#[trigger] c.boards[i]).name)
    &&& c.board_list == canonical_index(c.boards)
    &&& forall|i: int|
        0 <= i < c.boards.len() ==> (#[trigger] c.boards[i]).board.packets == data_packets(
            c.boards[i].board.packets,
        ) + order_packets(c.boards[i].board.packets)
}

/// No file of one board lies at a path under a different board's
/// directory.
proof fn lemma_board_files_other(e: BoardEntryV, m: Seq<char>, t: Seq<char>)
    requires
        slash_free(e.name),
        slash_free(m),
        m != e.name,
    ensures
        forall|i: int|
            0 <= i < board_files(e).len() ==> (#[trigger] board_files(e)[i]).0 != spec_join(
                spec_board_dir(m),
                t,
            ),
{
    lemma_manifest_path_form(e.name);
    lemma_board_paths_cross(e.name, m, e.name + ".json"@, t);
    lemma_board_paths_cross(e.name, m, spec_measurements_file(e.name), t);
    lemma_board_paths_cross(e.name, m, "packets.json"@, t);
    lemma_board_paths_cross(e.name, m, "orders.json"@, t);
}

/// A path under a board directory that no board of the list carries is
/// absent from the boards' rendered files.
proof fn lemma_boards_files_skip(bs: Seq<BoardEntryV>, m: Seq<char>, t: Seq<char>)
    requires
        slash_free(m),
        forall|i: int| 0 <= i < bs.len() ==> slash_free((#[trigger] bs[i]).name) && bs[i].name
            != m,
    ensures
        spec_file_at(texts_of(boards_files(bs)), spec_join(spec_board_dir(m), t)) is None,
    decreases bs.len(),
{
    let p = spec_join(spec_board_dir(m), t);
    if bs.len() == 0 {
        assert(texts_of(boards_files(bs)) =~= Seq::<(Seq<char>, Seq<char>)>::empty());
    } else {
        assert(forall|i: int|
            0 <= i < bs.drop_last().len() ==> slash_free((#[trigger] bs.drop_last()[i]).name)
                && bs.drop_last()[i].name != m);
        lemma_boards_files_skip(bs.drop_last(), m, t);
        lemma_texts_of_concat(boards_files(bs.drop_last()), board_files(bs.last()));
        lemma_file_at_concat(
            texts_of(boards_files(bs.drop_last())),
            texts_of(board_files(bs.last())),
            p,
        );
        lemma_board_files_other(bs.last(), m, t);
        lemma_texts_of_index(board_files(bs.last()));
        assert forall|j: int| 0 <= j < texts_of(board_files(bs.last())).len() implies (
        #[trigger] texts_of(board_files(bs.last()))[j]).0 != p by {
            assert(texts_of(board_files(bs.last()))[j].0 == board_files(bs.last())[j].0);
        }
        lemma_file_at_absent(texts_of(board_files(bs.last())), p);
    }
}

/// What one board's rendered files hold at each of the four canonical
/// paths of that board.
proof fn lemma_group_lookup(e: BoardEntryV)
    requires
        good_board_name(e.name),
    ensures
        spec_file_at(texts_of(board_files(e)), spec_manifest_path(e.name)) == Some(
            json_text(spec_manifest_doc(e.name, e.board), 0),
        ),
        spec_file_at(
            texts_of(board_files(e)),
            spec_join(spec_board_dir(e.name), spec_measurements_file(e.name)),
        ) == Some(json_text(spec_measurements_doc(e.board.measurements), 0)),
        spec_file_at(texts_of(board_files(e)), spec_join(spec_board_dir(e.name), "packets.json"@))
            == (if data_packets(e.board.packets).len() > 0 {
            Some(json_text(spec_packets_doc(data_packets(e.board.packets)), 0))
        } else {
            None
        }),
        spec_file_at(texts_of(board_files(e)), spec_join(spec_board_dir(e.name), "orders.json"@))
            == (if order_packets(e.board.packets).len() > 0 {
            Some(json_text(spec_packets_doc(order_packets(e.board.packets)), 0))
        } else {
            None
        }),
{
    reveal_with_fuel(crate::store::spec_file_at, 7);
    let n = e.name;
    lemma_manifest_path_form(n);
    lemma_tails_distinct(n);
    lemma_join_tails_differ(n, n + ".json"@, spec_measurements_file(n));
    lemma_join_tails_differ(n, n + ".json"@, "packets.json"@);
    lemma_join_tails_differ(n, n + ".json"@, "orders.json"@);
    lemma_join_tails_differ(n, spec_measurements_file(n), "packets.json"@);
    lemma_join_tails_differ(n, spec_measurements_file(n), "orders.json"@);
    lemma_join_tails_differ(n, "packets.json"@, "orders.json"@);
    lemma_texts_of_index(board_files(e));
    let dir = spec_board_dir(n);
    let base = seq![
        (spec_manifest_path(n), spec_manifest_doc(n, e.board)),
        (spec_join(dir, spec_measurements_file(n)), spec_measurements_doc(e.board.measurements)),
    ];
    let bf = board_files(e);
    let data = data_packets(e.board.packets);
    let orders = order_packets(e.board.packets);
    assert(bf[0] == base[0]);
    assert(bf[1] == base[1]);
    if data.len() > 0 {
        assert(bf[2] == (spec_join(dir, "packets.json"@), spec_packets_doc(data)));
        if orders.len() > 0 {
            assert(bf[3] == (spec_join(dir, "orders.json"@), spec_packets_doc(orders)));
            assert(bf.len() == 4);
        } else {
            assert(bf.len() == 3);
        }
    } else {
        if orders.len() > 0 {
            assert(bf[2] == (spec_join(dir, "orders.json"@), spec_packets_doc(orders)));
            assert(bf.len() == 3);
        } else {
            assert(bf.len() == 2);
        }
    }
    let f = texts_of(bf);
    assert(forall|j: int| 0 <= j < f.len() ==> #[trigger] f[j] == (bf[j].0, json_text(
        bf[j].1,
        0,
    )));
    assert(f.drop_first()[0] == f[1]);
    assert(f.drop_first().drop_first() =~= f.skip(2));
    if f.len() > 2 {
        assert(f.drop_first().drop_first()[0] == f[2]);
    }
    if f.len() > 3 {
        assert(f.drop_first().drop_first().drop_first()[0] == f[3]);
    }
    if data.len() == 0 {
        assert forall|j: int| 0 <= j < f.len() implies (#[trigger] f[j]).0 != spec_join(
            dir,
            "packets.json"@,
        ) by {}
        lemma_file_at_absent(f, spec_join(dir, "packets.json"@));
    }
    if orders.len() == 0 {
        assert forall|j: int| 0 <= j < f.len() implies (#[trigger] f[j]).0 != spec_join(
            dir,
            "orders.json"@,
        ) by {}
        lemma_file_at_absent(f, spec_join(dir, "orders.json"@));
    }
}

/// What the whole boards section holds at each canonical path of its
/// `k`-th board.
proof fn lemma_bfs_lookup(bs: Seq<BoardEntryV>, k: int)
    requires
        0 <= k < bs.len(),
        boards_distinct(bs),
        forall|i: int| 0 <= i < bs.len() ==> good_board_name((#[trigger] bs[i]).name),
    ensures
        spec_file_at(texts_of(boards_files(bs)), spec_manifest_path(bs[k].name)) == Some(
            json_text(spec_manifest_doc(bs[k].name, bs[k].board), 0),
        ),
        spec_file_at(
            texts_of(boards_files(bs)),
            spec_join(spec_board_dir(bs[k].name), spec_measurements_file(bs[k].name)),
        ) == Some(json_text(spec_measurements_doc(bs[k].board.measurements), 0)),
        spec_file_at(
            texts_of(boards_files(bs)),
            spec_join(spec_board_dir(bs[k].name), "packets.json"@),
        ) == (if data_packets(bs[k].board.packets).len() > 0 {
            Some(json_text(spec_packets_doc(data_packets(bs[k].board.packets)), 0))
        } else {
            None
        }),
        spec_file_at(
            texts_of(boards_files(bs)),
            spec_join(spec_board_dir(bs[k].name), "orders.json"@),
        ) == (if order_packets(bs[k].board.packets).len() > 0 {
            Some(json_text(spec_packets_doc(order_packets(bs[k].board.packets)), 0))
        } else {
            None
        }),
    decreases bs.len(),
{
    lemma_manifest_path_form(bs[k].name);
    lemma_texts_of_concat(boards_files(bs.drop_last()), board_files(bs.last()));
    let left = texts_of(boards_files(bs.drop_last()));
    let right = texts_of(board_files(bs.last()));
    lemma_file_at_concat(left, right, spec_manifest_path(bs[k].name));
    lemma_file_at_concat(
        left,
        right,
        spec_join(spec_board_dir(bs[k].name), spec_measurements_file(bs[k].name)),
    );
    lemma_file_at_concat(left, right, spec_join(spec_board_dir(bs[k].name), "packets.json"@));
    lemma_file_at_concat(left, right, spec_join(spec_board_dir(bs[k].name), "orders.json"@));
    if k == bs.len() - 1 {
        assert(forall|i: int|
            0 <= i < bs.drop_last().len() ==> slash_free((#[trigger] bs.drop_last()[i]).name)
                && bs.drop_last()[i].name != bs[k].name);
        lemma_boards_files_skip(bs.drop_last(), bs[k].name, bs[k].name + ".json"@);
        lemma_boards_files_skip(bs.drop_last(), bs[k].name, spec_measurements_file(bs[k].name));
        lemma_boards_files_skip(bs.drop_last(), bs[k].name, "packets.json"@);
        lemma_boards_files_skip(bs.drop_last(), bs[k].name, "orders.json"@);
        lemma_group_lookup(bs.last());
    } else {
        assert(boards_distinct(bs.drop_last()) && forall|i: int|
            0 <= i < bs.drop_last().len() ==> good_board_name(
                (#[trigger] bs.drop_last()[i]).name,
            )) by {
            assert(forall|i: int| 0 <= i < bs.drop_last().len() ==> #[trigger] bs.drop_last()[i]
                == bs[i]);
        }
        assert(bs.drop_last()[k] == bs[k]);
        lemma_bfs_lookup(bs.drop_last(), k);
        lemma_board_files_other(bs.last(), bs[k].name, bs[k].name + ".json"@);
        lemma_board_files_other(bs.last(), bs[k].name, spec_measurements_file(bs[k].name));
        lemma_board_files_other(bs.last(), bs[k].name, "packets.json"@);
        lemma_board_files_other(bs.last(), bs[k].name, "orders.json"@);
        lemma_texts_of_index(board_files(bs.last()));
        assert(forall|j: int| 0 <= j < right.len() ==> (#[trigger] right[j]).0 == board_files(
            bs.last(),
        )[j].0);
        lemma_file_at_absent(right, spec_manifest_path(bs[k].name));
        lemma_file_at_absent(
            right,
            spec_join(spec_board_dir(bs[k].name), spec_measurements_file(bs[k].name)),
        );
        lemma_file_at_absent(right, spec_join(spec_board_dir(bs[k].name), "packets.json"@));
        lemma_file_at_absent(right, spec_join(spec_board_dir(bs[k].name), "orders.json"@));
    }
}

} // verus!

verus! {

/// Reading one board back from the files a save wrote yields exactly that
/// board, provided the text layer parses back what the printer printed.
proof fn lemma_board_rt(c: ADJConfigV, s: FileStoreV, k: int)
    requires
        wf_config(c),
        s.files == spec_save_files(c),
        0 <= k < c.boards.len(),
        forall|d: JVal| #[trigger] json_doc_of(json_text(d, 0)) == Some(d),
    ensures
        doc_at(s.files, spec_manifest_path(c.boards[k].name)) == DocLookup::Valid(
            spec_manifest_doc(c.boards[k].name, c.boards[k].board),
        ),
        spec_board_of(
            c.boards[k].name,
            spec_manifest_doc(c.boards[k].name, c.boards[k].board),
            spec_dir_of(spec_manifest_path(c.boards[k].name)),
            s,
        ) == c.boards[k],
{
    reveal_strlit("boards/");
    reveal_strlit(".json");
    let e = c.boards[k];
    let n = e.name;
    let dir = spec_board_dir(n);
    let head = seq![
        ("general_info.json"@, spec_general_doc(c.general_info)),
        ("boards.json"@, spec_index_doc(c.boards)),
    ];
    assert(spec_save(c) == head + boards_files(c.boards));
    lemma_texts_of_concat(head, boards_files(c.boards));
    lemma_texts_of_index(head);
    lemma_manifest_path_form(n);
    lemma_board_path_not_head(n, n + ".json"@);
    lemma_board_path_not_head(n, spec_measurements_file(n));
    lemma_board_path_not_head(n, "packets.json"@);
    lemma_board_path_not_head(n, "orders.json"@);
    let ht = texts_of(head);
    assert(ht.len() == 2 && ht[0].0 == "general_info.json"@ && ht[1].0 == "boards.json"@);
    lemma_file_at_concat(ht, texts_of(boards_files(c.boards)), spec_manifest_path(n));
    lemma_file_at_concat(
        ht,
        texts_of(boards_files(c.boards)),
        spec_join(dir, spec_measurements_file(n)),
    );
    lemma_file_at_concat(ht, texts_of(boards_files(c.boards)), spec_join(dir, "packets.json"@));
    lemma_file_at_concat(ht, texts_of(boards_files(c.boards)), spec_join(dir, "orders.json"@));
    lemma_file_at_absent(ht, spec_join(dir, n + ".json"@));
    lemma_file_at_absent(ht, spec_join(dir, spec_measurements_file(n)));
    lemma_file_at_absent(ht, spec_join(dir, "packets.json"@));
    lemma_file_at_absent(ht, spec_join(dir, "orders.json"@));
    lemma_bfs_lookup(c.boards, k);
    // The manifest document comes back as written.
    assert(spec_file_at(s.files, spec_manifest_path(n)) == Some(
        json_text(spec_manifest_doc(n, e.board), 0),
    ));
    // Its directory is the board directory.
    assert(slash_free(n + ".json"@)) by {
        assert(forall|i: int|
            0 <= i < n.len() ==> #[trigger] (n + ".json"@)[i] == n[i]);
        assert(forall|i: int|
            n.len() <= i < n.len() + 5 ==> #[trigger] (n + ".json"@)[i] == ".json"@[i - n.len()]);
        assert(".json"@[0] != '/' && ".json"@[1] != '/' && ".json"@[2] != '/' && ".json"@[3]
            != '/' && ".json"@[4] != '/');
    }
    assert(dir.len() > 0);
    lemma_dir_of_join(dir, n + ".json"@);
    assert(spec_dir_of(spec_manifest_path(n)) == dir);
    // The manifest fields come back as the writer put them.
    lemma_manifest_rt(n, e.board);
    // The one measurements file contributes exactly the measurements.
    reveal_with_fuel(crate::assemble::spec_ms_files, 3);
    reveal_with_fuel(crate::assemble::spec_ps_files, 4);
    let mf = seq![spec_measurements_file(n)];
    assert(mf.drop_last() =~= Seq::<Seq<char>>::empty());
    assert(mf.last() == spec_measurements_file(n));
    lemma_measurements_rt(e.board.measurements);
    assert(spec_ms_files(mf, dir, s) =~= e.board.measurements);
    // The two packet files contribute the two partitions, in order.
    let pf = seq!["packets.json"@, "orders.json"@];
    assert(pf.drop_last() =~= seq!["packets.json"@]);
    assert(seq!["packets.json"@].drop_last() =~= Seq::<Seq<char>>::empty());
    let data = data_packets(e.board.packets);
    let orders = order_packets(e.board.packets);
    lemma_packets_rt(data);
    lemma_packets_rt(orders);
    assert(spec_ps_files(seq!["packets.json"@], dir, s) =~= data);
    assert(spec_ps_files(pf, dir, s) =~= data + orders);
    assert(data + orders == e.board.packets);
    assert(spec_board_of(n, spec_manifest_doc(n, e.board), dir, s) == e);
}

/// Reading back the boards of a saved prefix, in index order, yields that
/// prefix.
proof fn lemma_boards_rt(c: ADJConfigV, s: FileStoreV, j: int)
    requires
        wf_config(c),
        s.files == spec_save_files(c),
        0 <= j <= c.boards.len(),
        forall|d: JVal| #[trigger] json_doc_of(json_text(d, 0)) == Some(d),
    ensures
        spec_boards_from_index(canonical_index(c.boards.take(j)), s) == c.boards.take(j),
    decreases j,
{
    if j == 0 {
        assert(canonical_index(c.boards.take(0)) =~= Seq::<(Seq<char>, Seq<char>)>::empty());
        assert(spec_boards_from_index(canonical_index(c.boards.take(0)), s) =~= c.boards.take(0));
    } else {
        lemma_boards_rt(c, s, j - 1);
        let pairs = canonical_index(c.boards.take(j));
        lemma_canonical_index(c.boards.take(j));
        lemma_canonical_index(c.boards.take(j - 1));
        assert(c.boards.take(j).drop_last() =~= c.boards.take(j - 1));
        assert(pairs.drop_last() =~= canonical_index(c.boards.take(j - 1))) by {
            assert(forall|i: int|
                0 <= i < j - 1 ==> #[trigger] c.boards.take(j)[i] == c.boards.take(j - 1)[i]);
        }
        assert(pairs.last() == (c.boards[j - 1].name, spec_manifest_path(c.boards[j - 1].name)));
        lemma_board_rt(c, s, j - 1);
        assert(spec_boards_from_index(pairs, s) == spec_boards_from_index(
            canonical_index(c.boards.take(j - 1)),
            s,
        ) + seq![
            spec_board_of(
                c.boards[j - 1].name,
                spec_manifest_doc(c.boards[j - 1].name, c.boards[j - 1].board),
                spec_dir_of(spec_manifest_path(c.boards[j - 1].name)),
                s,
            ),
        ]);
        assert(c.boards.take(j - 1) + seq![c.boards[j - 1]] =~= c.boards.take(j));
    }
}

/// The round trip: loading what a save wrote yields the saved
/// configuration again, for any well-formed configuration.
///
/// The one hypothesis beyond well-formedness is the lexical layer's: the
/// trusted text parser inverts the verified printer.  Everything else —
/// the layout, the codecs, the index, the tolerance paths — is proved.
pub proof fn lemma_save_load_round_trip(c: ADJConfigV, s: FileStoreV)
    requires
        wf_config(c),
        s.files == spec_save_files(c),
        forall|d: JVal| #[trigger] json_doc_of(json_text(d, 0)) == Some(d),
    ensures
        spec_load(s) == Ok::<ADJConfigV, LoadErr>(c),
{
    reveal_with_fuel(crate::store::spec_file_at, 4);
    reveal_strlit("general_info.json");
    reveal_strlit("boards.json");
    assert("general_info.json"@.len() == 17 && "boards.json"@.len() == 11);
    let head = seq![
        ("general_info.json"@, spec_general_doc(c.general_info)),
        ("boards.json"@, spec_index_doc(c.boards)),
    ];
    assert(spec_save(c) == head + boards_files(c.boards));
    lemma_texts_of_concat(head, boards_files(c.boards));
    lemma_texts_of_index(head);
    let ht = texts_of(head);
    assert(ht.len() == 2 && ht[0] == ("general_info.json"@, json_text(
        spec_general_doc(c.general_info),
        0,
    )) && ht[1] == ("boards.json"@, json_text(spec_index_doc(c.boards), 0)));
    lemma_file_at_concat(ht, texts_of(boards_files(c.boards)), "general_info.json"@);
    lemma_file_at_concat(ht, texts_of(boards_files(c.boards)), "boards.json"@);
    assert(ht.drop_first()[0] == ht[1]);
    assert(spec_file_at(ht, "general_info.json"@) == Some(
        json_text(spec_general_doc(c.general_info), 0),
    ));
    assert(spec_file_at(ht, "boards.json"@) == Some(json_text(spec_index_doc(c.boards), 0)));
    lemma_general_rt(c.general_info);
    lemma_index_rt(c.boards);
    lemma_canonical_index(c.boards);
    assert(alist_distinct(canonical_index(c.boards))) by {
        let ci = canonical_index(c.boards);
        assert forall|i: int, j: int| 0 <= i < j < ci.len() implies ci[i].0 != ci[j].0 by {
            assert(ci[i].0 == c.boards[i].name);
            assert(ci[j].0 == c.boards[j].name);
        }
    }
    lemma_dedup_distinct(canonical_index(c.boards));
    lemma_boards_rt(c, s, c.boards.len() as int);
    assert(c.boards.take(c.boards.len() as int) =~= c.boards);
    assert(canonical_index(c.boards.take(c.boards.len() as int)) == canonical_index(c.boards));
    assert(spec_index(s) == c.board_list);
    assert(spec_boards(s) == c.boards);
    assert(spec_load(s) == Ok::<ADJConfigV, LoadErr>(c));
}

/// Saving, loading, and saving again writes byte-identical files: the
/// middle load yields the saved configuration back, and what a save
/// writes is a function of that value.
pub proof fn lemma_save_load_save(c: ADJConfigV, s: FileStoreV)
    requires
        wf_config(c),
        s.files == spec_save_files(c),
        forall|d: JVal| #[trigger] json_doc_of(json_text(d, 0)) == Some(d),
    ensures
        spec_load(s) is Ok,
        spec_save_files(spec_load(s)->Ok_0) == spec_save_files(c),
{
    lemma_save_load_round_trip(c, s);
}

} // verus!
