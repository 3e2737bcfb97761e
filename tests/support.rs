use peermaps_ingest::bbox::bbox_of;
use peermaps_ingest::cli::{choose_dir, get_version, parse_command, pick_flag, Command, DirChoice};
use peermaps_ingest::deps::{collect_positions, collect_ways, osm_ids_of};
use peermaps_ingest::ids::{feature_id, osm_id_of, pack_member, unpack_member, Kind, Member, Role};
use peermaps_ingest::load::{Batcher, BATCH_SIZE};
use peermaps_ingest::monitor::{erase_sequence, Monitor};
use peermaps_ingest::progress::{Progress, Stage};
use peermaps_ingest::record::{Decoded, Dep, Node};

fn rec(id: u64) -> Decoded {
    Decoded::Node(Node { id, lon: 0, lat: 0, feature_type: 1, labels: vec![] })
}

#[test]
fn feature_id_formula() {
    assert_eq!(feature_id(Kind::Node, 42), 126);
    assert_eq!(feature_id(Kind::Way, 7), 22);
    assert_eq!(feature_id(Kind::Relation, 9), 29);
    assert_eq!(osm_id_of(29), 9);
}

#[test]
fn member_packing() {
    assert_eq!(unpack_member(10), Member { way_id: 5, role: Role::Outer });
    assert_eq!(unpack_member(13), Member { way_id: 6, role: Role::Inner });
    assert_eq!(pack_member(Member { way_id: 6, role: Role::Inner }), 13);
}

#[test]
fn dependency_collection() {
    let deps = vec![
        Dep { id: 3, position: Some((1, 2)), refs: vec![] },
        Dep { id: 16, position: None, refs: vec![3, 6] },
        Dep { id: 19, position: None, refs: vec![] },
    ];
    assert_eq!(collect_positions(&deps), vec![(1, (1, 2))]);
    assert_eq!(collect_ways(&deps), vec![(5, vec![1, 2])]);
    assert_eq!(osm_ids_of(&vec![30, 31, 3]), vec![10, 10, 1]);
}

#[test]
fn bbox_of_points() {
    let b = bbox_of(&vec![(0u64, (5, -1)), (1, (-3, 4)), (2, (2, 2))]);
    assert_eq!((b.min_lon, b.min_lat, b.max_lon, b.max_lat), (-3, -1, 5, 4));
}

#[test]
fn progress_counts() {
    let mut p = Progress::new(&vec![Stage::Pbf, Stage::Process]);
    p.start(Stage::Pbf);
    p.add(Stage::Pbf, 5);
    p.tick();
    p.record_batch(Stage::Pbf, 3, Err("store failed".to_string()));
    p.record_batch(Stage::Pbf, 4, Ok(()));
    assert_eq!(p.stages[0].count, 9);
    assert_eq!(p.stages[0].errors, vec!["store failed".to_string()]);
    assert_eq!(p.stages[0].ticks, 1);
    assert_eq!(p.stages[1].ticks, 0);
    p.end(Stage::Pbf);
    p.tick();
    assert_eq!(p.stages[0].ticks, 1);
    assert!(p.stages[0].ended);
    p.add(Stage::Process, u64::MAX);
    p.add(Stage::Process, 1);
    assert_eq!(p.stages[1].count, u64::MAX);
}

#[test]
fn batcher_fills() {
    let mut b = Batcher::new(2);
    assert!(b.push(rec(1)).is_none());
    let full = b.push(rec(2)).unwrap();
    assert_eq!(full.len(), 2);
    assert_eq!(b.len(), 0);
    assert!(b.take_rest().is_none());
    assert!(b.push(rec(3)).is_none());
    assert_eq!(b.take_rest().unwrap().len(), 1);
    assert_eq!(BATCH_SIZE, 50_000);
}

#[test]
fn monitor_erases_after_first_draw() {
    let mut m = Monitor::new();
    assert!(!m.begin_draw());
    assert!(m.begin_draw());
    assert!(!m.stopped);
    m.end();
    assert!(m.stopped);
    assert_eq!(erase_sequence(0), b"\x1b[K".to_vec());
    assert_eq!(erase_sequence(2), b"\x1b[K\x1b[1A\x1b[K\x1b[1A\x1b[K".to_vec());
}

#[test]
fn command_line_rules() {
    assert_eq!(parse_command(Some(&"pbf".to_string())), Command::Pbf);
    assert_eq!(parse_command(Some(&"process".to_string())), Command::Process);
    assert_eq!(parse_command(Some(&"ingest".to_string())), Command::Ingest);
    assert_eq!(parse_command(Some(&"bogus".to_string())), Command::Unknown);
    assert_eq!(parse_command(None), Command::Usage);
    assert_eq!(pick_flag(Some("a".to_string()), Some("b".to_string())), Some("a".to_string()));
    assert_eq!(pick_flag(None, Some("b".to_string())), Some("b".to_string()));
    match choose_dir(None, Some("out".to_string()), "xq") {
        DirChoice::UnderOutdir { outdir, sub } => assert_eq!((outdir.as_str(), sub.as_str()), ("out", "xq")),
        _ => panic!("expected the output directory"),
    }
    assert!(matches!(choose_dir(Some("x".to_string()), Some("o".to_string()), "xq"), DirChoice::Given(d) if d == "x"));
    assert!(matches!(choose_dir(None, None, "edb"), DirChoice::Missing));
    assert_eq!(get_version(), "1.0.0");
}
