//! End-to-end tests of the engine: load, save, partition, rename, and the
//! tolerance rules, all driven through snapshots instead of a filesystem.

use adj_valet::store::FileStore;
use adj_valet::{ADJConfig, AdjError, Board, BoardEntry, GeneralInfo, Measurement, Packet};

fn general() -> GeneralInfo {
    GeneralInfo {
        ports: vec![(String::from("control"), 4000u16)],
        addresses: vec![(String::from("pod"), String::from("10.0.0.2"))],
        units: vec![(String::from("temp"), String::from("C"))],
        message_ids: vec![(String::from("ping"), 9u32)],
    }
}

fn measurement(id: &str) -> Measurement {
    Measurement {
        id: String::from(id),
        name: String::from("Temperature"),
        measurement_type: String::from("float32"),
        pod_units: Some(String::from("C")),
        display_units: None,
        enum_values: None,
        safe_range: Some((String::from("0.5"), String::from("90.5"))),
        warning_range: None,
    }
}

fn packet(name: &str, ty: &str) -> Packet {
    Packet {
        packet_type: String::from(ty),
        name: String::from(name),
        variables: vec![String::from("temp")],
        id: Some(3u32),
    }
}

fn config_one_board() -> ADJConfig {
    let board = Board {
        board_id: 7,
        board_ip: String::from("10.0.0.7"),
        measurements: vec![measurement("temp")],
        packets: vec![packet("orders", "order"), packet("telemetry", "data")],
    };
    ADJConfig {
        general_info: general(),
        boards: vec![BoardEntry::new(String::from("sensor1"), board)],
        board_list: vec![(
            String::from("sensor1"),
            String::from("boards/sensor1/sensor1.json"),
        )],
    }
}

fn store_from_writes(writes: &[(String, String)]) -> FileStore {
    let mut store = FileStore::new();
    for (p, c) in writes {
        store.add_file(p.clone(), c.clone());
    }
    store
}

#[test]
fn save_writes_canonical_layout() {
    let cfg = config_one_board();
    let files = cfg.save_to_directory();
    let paths: Vec<&str> = files.iter().map(|f| f.0.as_str()).collect();
    assert_eq!(
        paths,
        vec![
            "general_info.json",
            "boards.json",
            "boards/sensor1/sensor1.json",
            "boards/sensor1/sensor1_measurements.json",
            "boards/sensor1/packets.json",
            "boards/sensor1/orders.json",
        ]
    );
}

#[test]
fn save_round_trips_through_load() {
    let cfg = config_one_board();
    let files = cfg.save_to_directory();
    let store = store_from_writes(&files);
    let loaded = ADJConfig::load_from_directory(&store).expect("round trip load");
    assert_eq!(loaded.general_info, cfg.general_info);
    assert_eq!(loaded.board_list, cfg.board_list);
    assert_eq!(loaded.boards.len(), 1);
    assert_eq!(loaded.boards[0].name, "sensor1");
    let board = &loaded.boards[0].board;
    assert_eq!(board.board_id, 7);
    assert_eq!(board.board_ip, "10.0.0.7");
    assert_eq!(board.measurements, cfg.boards[0].board.measurements);
    // Packets come back partition-ordered: data first, then orders.
    assert_eq!(board.packets.len(), 2);
    assert_eq!(board.packets[0].name, "telemetry");
    assert_eq!(board.packets[1].name, "orders");
}

#[test]
fn save_twice_is_byte_identical() {
    let cfg = config_one_board();
    let first = cfg.save_to_directory();
    let second = cfg.save_to_directory();
    assert_eq!(first, second);
}

#[test]
fn save_partitions_packets_by_type() {
    let cfg = config_one_board();
    let files = cfg.save_to_directory();
    let packets = files
        .iter()
        .find(|f| f.0 == "boards/sensor1/packets.json")
        .expect("packets file");
    let orders = files
        .iter()
        .find(|f| f.0 == "boards/sensor1/orders.json")
        .expect("orders file");
    assert_eq!(packets.1.matches("\"name\"").count(), 1);
    assert_eq!(orders.1.matches("\"name\"").count(), 1);
    assert!(packets.1.contains("telemetry"));
    assert!(orders.1.contains("\"orders\""));
}

#[test]
fn all_order_board_writes_no_packets_file() {
    let mut cfg = config_one_board();
    cfg.boards[0].board.packets = vec![packet("a", "order"), packet("b", "order")];
    let files = cfg.save_to_directory();
    assert!(files.iter().all(|f| f.0 != "boards/sensor1/packets.json"));
    assert!(files.iter().any(|f| f.0 == "boards/sensor1/orders.json"));
}

#[test]
fn emitted_general_info_text_is_exact() {
    let cfg = ADJConfig {
        general_info: GeneralInfo {
            ports: vec![(String::from("control"), 4000u16)],
            addresses: vec![],
            units: vec![],
            message_ids: vec![],
        },
        boards: vec![],
        board_list: vec![],
    };
    let files = cfg.save_to_directory();
    let expected = "{\n  \"ports\": {\n    \"control\": 4000\n  },\n  \"addresses\": {},\n  \"units\": {},\n  \"message_ids\": {}\n}";
    assert_eq!(files[0].1, expected);
    assert_eq!(files[1].1, "{}");
}

#[test]
fn load_missing_general_info_is_not_found() {
    let store = FileStore::new();
    match ADJConfig::load_from_directory(&store) {
        Err(AdjError::NotFound(_)) => {}
        other => panic!("expected NotFound, got {:?}", other),
    }
}

#[test]
fn load_malformed_general_info_is_parse_failure() {
    let mut store = FileStore::new();
    store.add_file(
        String::from("general_info.json"),
        String::from("{ not json"),
    );
    match ADJConfig::load_from_directory(&store) {
        Err(AdjError::ParseFailure(_)) => {}
        other => panic!("expected ParseFailure, got {:?}", other),
    }
}

#[test]
fn load_wrongly_typed_general_info_is_parse_failure() {
    let mut store = FileStore::new();
    store.add_file(
        String::from("general_info.json"),
        String::from("{\"ports\": {\"a\": \"oops\"}, \"addresses\": {}, \"units\": {}, \"message_ids\": {}}"),
    );
    match ADJConfig::load_from_directory(&store) {
        Err(AdjError::ParseFailure(_)) => {}
        other => panic!("expected ParseFailure, got {:?}", other),
    }
}

fn minimal_general_text() -> String {
    String::from("{\"ports\": {}, \"addresses\": {}, \"units\": {}, \"message_ids\": {}}")
}

#[test]
fn missing_board_index_falls_back_to_directory_scan() {
    let mut store = FileStore::new();
    store.add_file(String::from("general_info.json"), minimal_general_text());
    store.add_board_dir(String::from("nav"));
    store.add_file(
        String::from("boards/nav/nav.json"),
        String::from("{\"board_id\": 4, \"board_ip\": \"10.0.0.4\", \"measurements\": [], \"packets\": []}"),
    );
    store.add_board_dir(String::from("bare"));
    let cfg = ADJConfig::load_from_directory(&store).expect("fallback load");
    assert_eq!(cfg.board_list.len(), 0);
    assert_eq!(cfg.boards.len(), 2);
    assert_eq!(cfg.boards[0].name, "nav");
    assert_eq!(cfg.boards[0].board.board_id, 4);
    assert_eq!(cfg.boards[1].name, "bare");
}

#[test]
fn board_without_manifest_gets_defaults() {
    let mut store = FileStore::new();
    store.add_file(String::from("general_info.json"), minimal_general_text());
    store.add_board_dir(String::from("ghostly"));
    let cfg = ADJConfig::load_from_directory(&store).expect("tolerant load");
    assert_eq!(cfg.boards.len(), 1);
    let b = &cfg.boards[0];
    assert_eq!(b.name, "ghostly");
    assert_eq!(b.board.board_id, 0);
    assert_eq!(b.board.board_ip, "0.0.0.0");
    assert!(b.board.measurements.is_empty());
    assert!(b.board.packets.is_empty());
}

#[test]
fn manifest_defaults_apply_field_by_field() {
    let mut store = FileStore::new();
    store.add_file(String::from("general_info.json"), minimal_general_text());
    store.add_file(
        String::from("boards.json"),
        String::from("{\"odd\": \"boards/odd/odd.json\"}"),
    );
    // board_id is not an integer, board_ip missing, lists ill-typed.
    store.add_file(
        String::from("boards/odd/odd.json"),
        String::from("{\"board_id\": \"x\", \"measurements\": 7}"),
    );
    let cfg = ADJConfig::load_from_directory(&store).expect("load");
    assert_eq!(cfg.boards.len(), 1);
    assert_eq!(cfg.boards[0].board.board_id, 0);
    assert_eq!(cfg.boards[0].board.board_ip, "0.0.0.0");
    assert!(cfg.boards[0].board.measurements.is_empty());
}

#[test]
fn unusable_record_files_are_skipped() {
    let mut store = FileStore::new();
    store.add_file(String::from("general_info.json"), minimal_general_text());
    store.add_file(
        String::from("boards.json"),
        String::from("{\"nav\": \"boards/nav/nav.json\"}"),
    );
    store.add_file(
        String::from("boards/nav/nav.json"),
        String::from(
            "{\"board_id\": 1, \"board_ip\": \"10.0.0.1\", \"measurements\": [\"bad.json\", \"good.json\", \"gone.json\"], \"packets\": []}",
        ),
    );
    store.add_file(String::from("boards/nav/bad.json"), String::from("   "));
    store.add_file(
        String::from("boards/nav/good.json"),
        String::from("[{\"id\": \"m\", \"name\": \"M\", \"type\": \"uint8\"}]"),
    );
    let cfg = ADJConfig::load_from_directory(&store).expect("load");
    assert_eq!(cfg.boards[0].board.measurements.len(), 1);
    assert_eq!(cfg.boards[0].board.measurements[0].id, "m");
}

#[test]
fn index_entry_with_missing_manifest_is_skipped() {
    let mut store = FileStore::new();
    store.add_file(String::from("general_info.json"), minimal_general_text());
    store.add_file(
        String::from("boards.json"),
        String::from("{\"gone\": \"boards/gone/gone.json\", \"nav\": \"boards/nav/nav.json\"}"),
    );
    store.add_file(
        String::from("boards/nav/nav.json"),
        String::from("{\"board_id\": 2, \"board_ip\": \"10.0.0.2\"}"),
    );
    let cfg = ADJConfig::load_from_directory(&store).expect("load");
    assert_eq!(cfg.boards.len(), 1);
    assert_eq!(cfg.boards[0].name, "nav");
    // The index itself keeps both entries, as loaded.
    assert_eq!(cfg.board_list.len(), 2);
}

#[test]
fn rename_to_existing_name_is_conflict() {
    let board = Board {
        board_id: 1,
        board_ip: String::from("10.0.0.1"),
        measurements: vec![],
        packets: vec![],
    };
    let mut cfg = ADJConfig {
        general_info: general(),
        boards: vec![
            BoardEntry::new(String::from("a"), board.clone()),
            BoardEntry::new(String::from("b"), board),
        ],
        board_list: vec![
            (String::from("a"), String::from("boards/a/a.json")),
            (String::from("b"), String::from("boards/b/b.json")),
        ],
    };
    let before = cfg.clone();
    let store = FileStore::new();
    match cfg.rename_board("a", "b", &store) {
        Err(AdjError::Conflict(n)) => assert_eq!(n, "b"),
        other => panic!("expected Conflict, got {:?}", other),
    }
    assert_eq!(cfg, before);
}

#[test]
fn rename_missing_board_is_not_found() {
    let mut cfg = config_one_board();
    let before = cfg.clone();
    let store = FileStore::new();
    match cfg.rename_board("nowhere", "fresh", &store) {
        Err(AdjError::NotFound(n)) => assert_eq!(n, "nowhere"),
        other => panic!("expected NotFound, got {:?}", other),
    }
    assert_eq!(cfg, before);
}

#[test]
fn rename_success_updates_index_and_files() {
    let mut cfg = config_one_board();
    let files = cfg.save_to_directory();
    let mut store = store_from_writes(&files);
    store.add_board_dir(String::from("sensor1"));

    let plan = cfg
        .rename_board("sensor1", "sensor2", &store)
        .expect("rename");

    // In-memory state first: index holds sensor2 at its canonical path and
    // no longer holds sensor1; the record kept everything but its name.
    assert_eq!(
        cfg.board_list,
        vec![(
            String::from("sensor2"),
            String::from("boards/sensor2/sensor2.json"),
        )]
    );
    assert_eq!(cfg.boards.len(), 1);
    assert_eq!(cfg.boards[0].name, "sensor2");
    assert_eq!(cfg.boards[0].board.board_id, 7);

    // Now the directory, driven by the plan exactly as a caller would.
    let (from, to) = plan.dir_rename.expect("directory rename");
    store.rename_board_dir(&from, &to);
    for (f, t) in &plan.file_renames {
        store.rename_file(f, t);
    }
    assert!(store.file_exists("boards/sensor2/sensor2.json"));
    assert!(store.file_exists("boards/sensor2/sensor2_measurements.json"));
    assert!(!store.file_exists("boards/sensor1/sensor1.json"));
    assert!(!store.board_dir_exists("sensor1"));
    assert!(store.board_dir_exists("sensor2"));
}

#[test]
fn rename_without_directory_touches_no_files() {
    let mut cfg = config_one_board();
    let store = FileStore::new();
    let plan = cfg.rename_board("sensor1", "sensor2", &store).expect("rename");
    assert!(plan.dir_rename.is_none());
    assert!(plan.file_renames.is_empty());
    assert_eq!(cfg.boards[0].name, "sensor2");
}

#[test]
fn empty_update_is_rejected() {
    let cfg = ADJConfig {
        general_info: GeneralInfo {
            ports: vec![],
            addresses: vec![],
            units: vec![],
            message_ids: vec![],
        },
        boards: vec![],
        board_list: vec![],
    };
    match cfg.validate_update() {
        Err(AdjError::BadRequest(_)) => {}
        other => panic!("expected BadRequest, got {:?}", other),
    }
    assert!(config_one_board().validate_update().is_ok());
}

#[test]
fn parse_json_reads_real_documents() {
    // Drives the parse wrapper through the load path: the value must come
    // from the text, not from anything handed in.
    let mut store = FileStore::new();
    store.add_file(
        String::from("general_info.json"),
        String::from("{\"ports\": {\"p\": 65535}, \"addresses\": {}, \"units\": {}, \"message_ids\": {\"m\": 4294967295}}"),
    );
    let cfg = ADJConfig::load_from_directory(&store).expect("load");
    assert_eq!(cfg.general_info.ports, vec![(String::from("p"), 65535u16)]);
    assert_eq!(
        cfg.general_info.message_ids,
        vec![(String::from("m"), 4294967295u32)]
    );
}

#[test]
fn escaped_strings_round_trip() {
    let mut cfg = config_one_board();
    cfg.boards[0].board.measurements[0].name = String::from("line\nbreak \"q\" \\ tab\t");
    let files = cfg.save_to_directory();
    let store = store_from_writes(&files);
    let loaded = ADJConfig::load_from_directory(&store).expect("load");
    assert_eq!(
        loaded.boards[0].board.measurements[0].name,
        "line\nbreak \"q\" \\ tab\t"
    );
}

#[test]
fn oversized_board_id_is_truncated() {
    let mut store = FileStore::new();
    store.add_file(String::from("general_info.json"), minimal_general_text());
    store.add_file(
        String::from("boards.json"),
        String::from("{\"big\": \"boards/big/big.json\"}"),
    );
    // 4294967301 == 2^32 + 5: the id is read as a 64-bit integer and
    // truncated to 32 bits.
    store.add_file(
        String::from("boards/big/big.json"),
        String::from("{\"board_id\": 4294967301, \"board_ip\": \"10.0.0.9\"}"),
    );
    let cfg = ADJConfig::load_from_directory(&store).expect("load");
    assert_eq!(cfg.boards[0].board.board_id, 5);
}

#[test]
fn negative_range_tokens_round_trip() {
    let mut cfg = config_one_board();
    cfg.boards[0].board.measurements[0].safe_range =
        Some((String::from("-12.5"), String::from("3e2")));
    let files = cfg.save_to_directory();
    let store = store_from_writes(&files);
    let loaded = ADJConfig::load_from_directory(&store).expect("load");
    let r = loaded.boards[0].board.measurements[0]
        .safe_range
        .as_ref()
        .expect("range");
    assert_eq!(r.0, "-12.5");
    // The text layer normalizes the exponent token to its decimal value.
    assert_eq!(r.1, "300.0");
}

#[test]
fn rename_plan_skips_missing_files() {
    let mut cfg = config_one_board();
    let mut store = FileStore::new();
    store.add_board_dir(String::from("sensor1"));
    store.add_file(
        String::from("boards/sensor1/sensor1.json"),
        String::from("{}"),
    );
    // No measurements file on disk: the plan renames the directory and the
    // manifest only.
    let plan = cfg.rename_board("sensor1", "sensor2", &store).expect("rename");
    assert_eq!(
        plan.dir_rename,
        Some((String::from("sensor1"), String::from("sensor2")))
    );
    assert_eq!(
        plan.file_renames,
        vec![(
            String::from("boards/sensor2/sensor1.json"),
            String::from("boards/sensor2/sensor2.json"),
        )]
    );
}
