//! The configuration writer: turns the in-memory configuration into the
//! canonical multi-file layout.
//!
//! `save_to_directory` computes the full list of files to write — every call
//! regenerates every managed file from the in-memory model, including each
//! board's manifest; nothing of the previous on-disk layout survives.  The
//! caller writes the returned path/content pairs out, creating directories
//! as the paths require.

use vstd::prelude::*;
use vstd::string::*;
use crate::codec::{
    general_doc, index_doc, manifest_doc, measurements_doc, packets_doc, spec_general_doc,
    spec_index_doc, spec_manifest_doc, spec_measurements_doc, spec_packets_doc,
};
use crate::json::{json_text, to_pretty_string, JVal};
use crate::model::{ADJConfig, ADJConfigV, BoardEntryV, Packet, PacketV};
use crate::text::{
    board_dir, clone_strings, join_path, manifest_path, measurements_file, spec_board_dir,
    spec_join, spec_manifest_path, spec_measurements_file, str_eq,
};

verus! {

/// The packets that go to `packets.json`: those whose type is not the
/// order marker, in their original order.
pub open spec fn data_packets(ps: Seq<PacketV>) -> Seq<PacketV>
    decreases ps.len(),
{
    if ps.len() == 0 {
        Seq::empty()
    } else if ps.last().packet_type == "order"@ {
        data_packets(ps.drop_last())
    } else {
        data_packets(ps.drop_last()).push(ps.last())
    }
}

/// The packets that go to `orders.json`: those whose type is the order
/// marker, in their original order.
pub open spec fn order_packets(ps: Seq<PacketV>) -> Seq<PacketV>
    decreases ps.len(),
{
    if ps.len() == 0 {
        Seq::empty()
    } else if ps.last().packet_type == "order"@ {
        order_packets(ps.drop_last()).push(ps.last())
    } else {
        order_packets(ps.drop_last())
    }
}

/// Copies one packet, field by field.
fn clone_packet(p: &Packet) -> (r: Packet)
    ensures
        r.deep_view() == p.deep_view(),
{
    Packet {
        packet_type: p.packet_type.clone(),
        name: p.name.clone(),
        variables: clone_strings(&p.variables),
        id: p.id,
    }
}

/// Splits packets into the data partition and the order partition, both
/// keeping their original order.
pub fn partition_packets(ps: &Vec<Packet>) -> (r: (Vec<Packet>, Vec<Packet>))
    ensures
        r.0.deep_view() == data_packets(ps.deep_view()),
        r.1.deep_view() == order_packets(ps.deep_view()),
{
    let ghost dv: Seq<PacketV> = ps.deep_view();
    let mut data: Vec<Packet> = Vec::new();
    let mut orders: Vec<Packet> = Vec::new();
    proof {
        assert(data.deep_view() =~= data_packets(dv.take(0)));
        assert(orders.deep_view() =~= order_packets(dv.take(0)));
    }
    let mut i: usize = 0;
    while i < ps.len()
        invariant
            i <= ps.len(),
            dv == ps.deep_view(),
            dv.len() == ps@.len(),
            data.deep_view() == data_packets(dv.take(i as int)),
            orders.deep_view() == order_packets(dv.take(i as int)),
        decreases ps.len() - i,
    {
        proof {
            assert(dv[i as int] == ps@[i as int].deep_view());
            assert(dv.take(i + 1).drop_last() =~= dv.take(i as int));
            assert(dv.take(i + 1).last() == dv[i as int]);
        }
        let ghost data0: Seq<PacketV> = data.deep_view();
        let ghost orders0: Seq<PacketV> = orders.deep_view();
        if str_eq(ps[i].packet_type.as_str(), "order") {
            orders.push(clone_packet(&ps[i]));
            proof {
                assert(orders.deep_view() =~= orders0.push(dv[i as int]));
            }
        } else {
            data.push(clone_packet(&ps[i]));
            proof {
                assert(data.deep_view() =~= data0.push(dv[i as int]));
            }
        }
        i = i + 1;
    }
    proof {
        assert(dv.take(dv.len() as int) =~= dv);
    }
    (data, orders)
}

/// The files one board contributes to a save, in write order: its
/// regenerated manifest, its measurements file, and a file per non-empty
/// packet partition.
pub open spec fn board_files(e: BoardEntryV) -> Seq<(Seq<char>, JVal)> {
    let dir = spec_board_dir(e.name);
    let base = seq![
        (spec_manifest_path(e.name), spec_manifest_doc(e.name, e.board)),
        (
            spec_join(dir, spec_measurements_file(e.name)),
            spec_measurements_doc(e.board.measurements),
        ),
    ];
    let data = data_packets(e.board.packets);
    let orders = order_packets(e.board.packets);
    let with_data = if data.len() > 0 {
        base.push((spec_join(dir, "packets.json"@), spec_packets_doc(data)))
    } else {
        base
    };
    if orders.len() > 0 {
        with_data.push((spec_join(dir, "orders.json"@), spec_packets_doc(orders)))
    } else {
        with_data
    }
}

/// The files all boards contribute, in board order.
pub open spec fn boards_files(bs: Seq<BoardEntryV>) -> Seq<(Seq<char>, JVal)>
    decreases bs.len(),
{
    if bs.len() == 0 {
        Seq::empty()
    } else {
        boards_files(bs.drop_last()) + board_files(bs.last())
    }
}

/// Everything a save writes, as documents in write order: the general
/// information, the regenerated board index, then each board's files.
pub open spec fn spec_save(c: ADJConfigV) -> Seq<(Seq<char>, JVal)> {
    seq![
        ("general_info.json"@, spec_general_doc(c.general_info)),
        ("boards.json"@, spec_index_doc(c.boards)),
    ] + boards_files(c.boards)
}

/// Documents rendered to text, entry by entry.
pub open spec fn texts_of(ds: Seq<(Seq<char>, JVal)>) -> Seq<(Seq<char>, Seq<char>)>
    decreases ds.len(),
{
    if ds.len() == 0 {
        Seq::empty()
    } else {
        texts_of(ds.drop_last()).push((ds.last().0, json_text(ds.last().1, 0)))
    }
}

/// Everything a save writes, as text.
pub open spec fn spec_save_files(c: ADJConfigV) -> Seq<(Seq<char>, Seq<char>)> {
    texts_of(spec_save(c))
}

/// Rendering distributes over concatenation of write lists.
pub proof fn lemma_texts_of_concat(a: Seq<(Seq<char>, JVal)>, b: Seq<(Seq<char>, JVal)>)
    ensures
        texts_of(a + b) == texts_of(a) + texts_of(b),
    decreases b.len(),
{
    if b.len() == 0 {
        assert(a + b =~= a);
        assert(texts_of(a) + texts_of(b) =~= texts_of(a));
    } else {
        lemma_texts_of_concat(a, b.drop_last());
        assert((a + b).drop_last() =~= a + b.drop_last());
        assert((a + b).last() == b.last());
        assert(texts_of(a + b) == texts_of(a + b.drop_last()).push(
            (b.last().0, json_text(b.last().1, 0)),
        ));
        assert(texts_of(b).drop_last() =~= texts_of(b.drop_last()));
        assert(texts_of(a) + texts_of(b) =~= (texts_of(a) + texts_of(b.drop_last())).push(
            (b.last().0, json_text(b.last().1, 0)),
        ));
    }
}

impl ADJConfig {
    /// Computes the full overwrite a save performs: every managed file of
    /// the canonical layout with its new content, in write order.
    pub fn save_to_directory(&self) -> (r: Vec<(String, String)>)
        ensures
            r.deep_view() == spec_save_files(self.deep_view()),
    {
        let ghost cv: ADJConfigV = self.deep_view();
        let ghost head: Seq<(Seq<char>, JVal)> = seq![
            ("general_info.json"@, spec_general_doc(cv.general_info)),
            ("boards.json"@, spec_index_doc(cv.boards)),
        ];
        let mut out: Vec<(String, String)> = Vec::new();
        let gdoc = general_doc(&self.general_info);
        out.push((String::from_str("general_info.json"), to_pretty_string(&gdoc)));
        let ghost out1: Seq<(String, String)> = out@;
        let idoc = index_doc(&self.boards);
        out.push((String::from_str("boards.json"), to_pretty_string(&idoc)));
        proof {
            reveal_with_fuel(texts_of, 4);
            assert(out1.drop_last() =~= Seq::<(String, String)>::empty());
            assert(out@.drop_last() =~= out1);
            assert(head.drop_last() =~= seq![
                ("general_info.json"@, spec_general_doc(cv.general_info)),
            ]);
            assert(seq![("general_info.json"@, spec_general_doc(cv.general_info))].drop_last()
                =~= Seq::<(Seq<char>, JVal)>::empty());
            assert(out.deep_view() =~= texts_of(head));
            assert(boards_files(cv.boards.take(0)) =~= Seq::<(Seq<char>, JVal)>::empty());
            assert(head + boards_files(cv.boards.take(0)) =~= head);
        }
        let mut i: usize = 0;
        while i < self.boards.len()
            invariant
                i <= self.boards.len(),
                cv == self.deep_view(),
                cv.boards.len() == self.boards@.len(),
                head == seq![
                    ("general_info.json"@, spec_general_doc(cv.general_info)),
                    ("boards.json"@, spec_index_doc(cv.boards)),
                ],
                out.deep_view() == texts_of(head + boards_files(cv.boards.take(i as int))),
            decreases self.boards.len() - i,
        {
            let ghost e: BoardEntryV = cv.boards[i as int];
            proof {
                assert(e == self.boards@[i as int].deep_view());
                assert(cv.boards.take(i + 1).drop_last() =~= cv.boards.take(i as int));
                assert(cv.boards.take(i + 1).last() == e);
            }
            let name = &self.boards[i].name;
            let board = &self.boards[i].board;
            let dir = board_dir(name.as_str());
            let ghost prefix: Seq<(Seq<char>, JVal)> = head + boards_files(
                cv.boards.take(i as int),
            );
            let ghost base: Seq<(Seq<char>, JVal)> = seq![
                (spec_manifest_path(e.name), spec_manifest_doc(e.name, e.board)),
                (
                    spec_join(spec_board_dir(e.name), spec_measurements_file(e.name)),
                    spec_measurements_doc(e.board.measurements),
                ),
            ];
            let ghost out_pre: Seq<(Seq<char>, Seq<char>)> = out.deep_view();
            let mdoc = manifest_doc(name.as_str(), board);
            out.push((manifest_path(name.as_str()), to_pretty_string(&mdoc)));
            proof {
                assert(out.deep_view() =~= out_pre.push(
                    (spec_manifest_path(e.name), json_text(spec_manifest_doc(e.name, e.board), 0)),
                ));
            }
            let ghost out_a: Seq<(Seq<char>, Seq<char>)> = out.deep_view();
            let msdoc = measurements_doc(&board.measurements);
            out.push(
                (
                    join_path(dir.as_str(), measurements_file(name.as_str()).as_str()),
                    to_pretty_string(&msdoc),
                ),
            );
            proof {
                assert(out.deep_view() =~= out_a.push(
                    (
                        spec_join(spec_board_dir(e.name), spec_measurements_file(e.name)),
                        json_text(spec_measurements_doc(e.board.measurements), 0),
                    ),
                ));
                reveal_with_fuel(texts_of, 3);
                lemma_texts_of_concat(prefix, base);
                assert(base.drop_last() =~= seq![
                    (spec_manifest_path(e.name), spec_manifest_doc(e.name, e.board)),
                ]);
                assert(seq![(spec_manifest_path(e.name), spec_manifest_doc(e.name, e.board))]
                    .drop_last() =~= Seq::<(Seq<char>, JVal)>::empty());
                assert(out.deep_view() =~= texts_of(prefix + base));
            }
            let ghost out_b: Seq<(Seq<char>, Seq<char>)> = out.deep_view();
            let parts = partition_packets(&board.packets);
            let data = parts.0;
            let orders = parts.1;
            let ghost withdata: Seq<(Seq<char>, JVal)> = if data_packets(e.board.packets).len()
                > 0 {
                base.push(
                    (
                        spec_join(spec_board_dir(e.name), "packets.json"@),
                        spec_packets_doc(data_packets(e.board.packets)),
                    ),
                )
            } else {
                base
            };
            if data.len() > 0 {
                let pdoc = packets_doc(&data);
                out.push((join_path(dir.as_str(), "packets.json"), to_pretty_string(&pdoc)));
                proof {
                    assert(out.deep_view() =~= out_b.push(
                        (
                            spec_join(spec_board_dir(e.name), "packets.json"@),
                            json_text(spec_packets_doc(data_packets(e.board.packets)), 0),
                        ),
                    ));
                    lemma_texts_of_concat(prefix, withdata);
                    assert(withdata.drop_last() =~= base);
                    assert(out.deep_view() =~= texts_of(prefix + withdata));
                }
            } else {
                proof {
                    assert(out.deep_view() =~= texts_of(prefix + withdata));
                }
            }
            let ghost out_c: Seq<(Seq<char>, Seq<char>)> = out.deep_view();
            let ghost allfiles: Seq<(Seq<char>, JVal)> = if order_packets(e.board.packets).len()
                > 0 {
                withdata.push(
                    (
                        spec_join(spec_board_dir(e.name), "orders.json"@),
                        spec_packets_doc(order_packets(e.board.packets)),
                    ),
                )
            } else {
                withdata
            };
            if orders.len() > 0 {
                let odoc = packets_doc(&orders);
                out.push((join_path(dir.as_str(), "orders.json"), to_pretty_string(&odoc)));
                proof {
                    assert(out.deep_view() =~= out_c.push(
                        (
                            spec_join(spec_board_dir(e.name), "orders.json"@),
                            json_text(spec_packets_doc(order_packets(e.board.packets)), 0),
                        ),
                    ));
                    lemma_texts_of_concat(prefix, allfiles);
                    assert(allfiles.drop_last() =~= withdata);
                    assert(out.deep_view() =~= texts_of(prefix + allfiles));
                }
            } else {
                proof {
                    assert(out.deep_view() =~= texts_of(prefix + allfiles));
                }
            }
            proof {
                assert(allfiles =~= board_files(e));
                assert(boards_files(cv.boards.take(i + 1)) == boards_files(
                    cv.boards.take(i as int),
                ) + board_files(e));
                assert(prefix + allfiles =~= head + boards_files(cv.boards.take(i + 1)));
            }
            i = i + 1;
        }
        proof {
            assert(cv.boards.take(cv.boards.len() as int) =~= cv.boards);
        }
        out
    }
}

} // verus!
