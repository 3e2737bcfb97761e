use peermaps_ingest::bbox::BBox;
use peermaps_ingest::ids::{Kind, Member, Role};
use peermaps_ingest::ingest::Ingest;
use peermaps_ingest::process::{emit, emit_bucket, plan_bucket, plan_record, Entry, Plan, Point, Row};
use peermaps_ingest::progress::Stage;
use peermaps_ingest::record::{Decoded, Dep, Node, Relation, Way};

const PLACE_OTHER: u64 = 712;
const DEG: i32 = 10_000_000;

fn node(id: u64, lon: i32, lat: i32, feature_type: u64) -> Decoded {
    Decoded::Node(Node { id, lon, lat, feature_type, labels: vec![1, 2] })
}

fn node_dep(id: u64, lon: i32, lat: i32) -> Dep {
    Dep { id: id * 3, position: Some((lon, lat)), refs: vec![] }
}

fn way_dep(id: u64, refs: &[u64]) -> Dep {
    Dep { id: id * 3 + 1, position: None, refs: refs.iter().map(|r| r * 3).collect() }
}

fn way(id: u64, refs: Vec<u64>) -> Decoded {
    Decoded::Way(Way { id, feature_type: 20, is_area: false, labels: vec![3], refs })
}

fn relation(id: u64, members: Vec<u64>) -> Decoded {
    Decoded::Relation(Relation { id, feature_type: 30, is_area: true, labels: vec![4], members })
}

fn row_of(rec: Decoded, deps: Vec<Dep>, encoded: Option<Vec<u8>>) -> Option<Row> {
    let plan = plan_record(PLACE_OTHER, rec, &deps);
    emit(plan, encoded)
}

#[test]
fn single_node_row() {
    let row = row_of(node(42, 10 * DEG, 20 * DEG, 5), vec![], Some(vec![9, 9])).unwrap();
    assert_eq!(row.id, 126);
    assert_eq!(row.point, Point::Scalar { lon: 10 * DEG, lat: 20 * DEG });
    assert_eq!(row.payload, vec![9, 9]);
}

#[test]
fn place_other_node_skipped() {
    let plan = plan_record(PLACE_OTHER, node(42, 10 * DEG, 20 * DEG, PLACE_OTHER), &vec![]);
    assert!(plan.is_skip());
    assert!(row_of(node(42, 10 * DEG, 20 * DEG, PLACE_OTHER), vec![], Some(vec![1])).is_none());
}

#[test]
fn short_way_skipped() {
    let deps = vec![node_dep(1, 0, 0)];
    assert!(plan_record(PLACE_OTHER, way(7, vec![1]), &deps).is_skip());
}

#[test]
fn normal_way_row() {
    let deps = vec![node_dep(1, 0, 0), node_dep(2, DEG, 0), node_dep(3, DEG, DEG)];
    let plan = plan_record(PLACE_OTHER, way(7, vec![1, 2, 3]), &deps);
    match &plan {
        Plan::Way { id, refs, positions, .. } => {
            assert_eq!(*id, 22);
            assert_eq!(refs, &vec![1, 2, 3]);
            assert_eq!(positions, &vec![(1, (0, 0)), (2, (DEG, 0)), (3, (DEG, DEG))]);
        }
        _ => panic!("expected a way plan"),
    }
    let row = emit(plan, Some(vec![7])).unwrap();
    assert_eq!(row.id, 22);
    assert_eq!(row.point, Point::Interval(BBox { min_lon: 0, min_lat: 0, max_lon: DEG, max_lat: DEG }));
}

#[test]
fn relation_of_two_ways() {
    let deps = vec![
        way_dep(5, &[1, 2]),
        way_dep(6, &[3, 4]),
        node_dep(1, 0, 0),
        node_dep(2, 2 * DEG, 0),
        node_dep(3, 2 * DEG, 2 * DEG),
        node_dep(4, 0, 2 * DEG),
    ];
    let plan = plan_record(PLACE_OTHER, relation(9, vec![5 * 2, 6 * 2 + 1]), &deps);
    match &plan {
        Plan::Relation { id, members, ways, positions, .. } => {
            assert_eq!(*id, 29);
            assert_eq!(
                members,
                &vec![Member { way_id: 5, role: Role::Outer }, Member { way_id: 6, role: Role::Inner }]
            );
            assert_eq!(ways, &vec![(5, vec![1, 2]), (6, vec![3, 4])]);
            assert_eq!(positions.len(), 4);
        }
        _ => panic!("expected a relation plan"),
    }
    let row = emit(plan, Some(vec![1])).unwrap();
    assert_eq!(row.id, 29);
    assert_eq!(
        row.point,
        Point::Interval(BBox { min_lon: 0, min_lat: 0, max_lon: 2 * DEG, max_lat: 2 * DEG })
    );
}

fn s1_s4_bucket() -> Vec<Entry> {
    vec![
        Entry { record: node(42, 10 * DEG, 20 * DEG, 5), deps: vec![] },
        Entry {
            record: way(7, vec![1, 2, 3]),
            deps: vec![node_dep(1, 0, 0), node_dep(2, DEG, 0), node_dep(3, DEG, DEG)],
        },
    ]
}

fn id_points(rows: &[Row]) -> Vec<(u64, Point)> {
    rows.iter().map(|r| (r.id, r.point)).collect()
}

#[test]
fn two_phase_equivalence() {
    let stages = vec![Stage::Pbf, Stage::Process];
    let mut one_shot = Ingest::new(PLACE_OTHER, &stages);
    let plans = one_shot.plan(s1_s4_bucket());
    let rows_a = one_shot.finish_bucket(plans, vec![Some(vec![1]), Some(vec![2])]);
    let mut later = Ingest::new(PLACE_OTHER, &vec![Stage::Process]);
    let plans = later.plan(s1_s4_bucket());
    let rows_b = later.finish_bucket(plans, vec![Some(vec![1]), Some(vec![2])]);
    assert_eq!(id_points(&rows_a), id_points(&rows_b));
    assert_eq!(
        id_points(&rows_a),
        vec![
            (126, Point::Scalar { lon: 10 * DEG, lat: 20 * DEG }),
            (22, Point::Interval(BBox { min_lon: 0, min_lat: 0, max_lon: DEG, max_lat: DEG })),
        ]
    );
    assert_eq!(one_shot.progress.stages[1].count, 2);
    assert_eq!(one_shot.progress.stages[0].count, 0);
}

#[test]
fn way_with_two_refs_to_one_node_skipped() {
    let deps = vec![node_dep(1, 3, 4), node_dep(1, 3, 4)];
    assert!(plan_record(PLACE_OTHER, way(8, vec![1, 1]), &deps).is_skip());
}

#[test]
fn two_nodes_at_one_coordinate_still_written() {
    let deps = vec![node_dep(1, 3, 4), node_dep(2, 3, 4)];
    let row = row_of(way(8, vec![1, 2]), deps, Some(vec![1])).unwrap();
    assert_eq!(row.point, Point::Interval(BBox { min_lon: 3, min_lat: 4, max_lon: 3, max_lat: 4 }));
}

#[test]
fn memberless_relation() {
    let deps = vec![node_dep(1, 0, 0), node_dep(2, 5, 6)];
    let plan = plan_record(PLACE_OTHER, relation(3, vec![]), &deps);
    match &plan {
        Plan::Relation { members, ways, .. } => {
            assert!(members.is_empty());
            assert!(ways.is_empty());
        }
        _ => panic!("expected a relation plan"),
    }
    assert!(emit(plan, Some(vec![])).is_none());
    let plan = plan_record(PLACE_OTHER, relation(3, vec![]), &deps);
    let row = emit(plan, Some(vec![8])).unwrap();
    assert_eq!(row.id, 11);
}

#[test]
fn relation_with_one_node_skipped() {
    let deps = vec![way_dep(5, &[1, 2]), node_dep(1, 0, 0)];
    assert!(plan_record(PLACE_OTHER, relation(3, vec![10]), &deps).is_skip());
}

#[test]
fn empty_bucket() {
    let plans = plan_bucket(PLACE_OTHER, vec![]);
    assert!(plans.is_empty());
    assert!(emit_bucket(plans, vec![]).is_empty());
}

#[test]
fn encoder_failure_and_empty_bytes_skip() {
    assert!(row_of(node(1, 0, 0, 5), vec![], None).is_none());
    assert!(row_of(node(1, 0, 0, 5), vec![], Some(vec![])).is_none());
}

#[test]
fn ids_carry_kind() {
    let n = row_of(node(10, 0, 0, 5), vec![], Some(vec![1])).unwrap();
    let deps = vec![node_dep(1, 0, 0), node_dep(2, 1, 1)];
    let w = row_of(way(10, vec![1, 2]), deps, Some(vec![1])).unwrap();
    let deps = vec![node_dep(1, 0, 0), node_dep(2, 1, 1)];
    let r = row_of(relation(10, vec![]), deps, Some(vec![1])).unwrap();
    assert_eq!((n.id % 3, w.id % 3, r.id % 3), (0, 1, 2));
    assert_eq!((n.id / 3, w.id / 3, r.id / 3), (10, 10, 10));
    assert_eq!(node(10, 0, 0, 5).record_id(), 30);
    assert_eq!(node(10, 0, 0, 5).kind(), Kind::Node);
}

#[test]
fn later_dependency_replaces_earlier() {
    let deps = vec![node_dep(1, 0, 0), node_dep(2, 9, 9), node_dep(1, -5, -7)];
    let plan = plan_record(PLACE_OTHER, way(4, vec![1, 2]), &deps);
    match &plan {
        Plan::Way { positions, bbox, .. } => {
            assert_eq!(positions, &vec![(1, (-5, -7)), (2, (9, 9))]);
            assert_eq!(*bbox, BBox { min_lon: -5, min_lat: -7, max_lon: 9, max_lat: 9 });
        }
        _ => panic!("expected a way plan"),
    }
}

#[test]
fn bucket_keeps_order_and_drops_skips() {
    let entries = vec![
        Entry { record: node(1, 1, 1, PLACE_OTHER), deps: vec![] },
        Entry { record: node(2, 2, 2, 5), deps: vec![] },
        Entry { record: node(3, 3, 3, 5), deps: vec![] },
    ];
    let plans = plan_bucket(PLACE_OTHER, entries);
    assert!(plans[0].is_skip());
    let rows = emit_bucket(plans, vec![Some(vec![1]), Some(vec![2]), Some(vec![3])]);
    assert_eq!(rows.len(), 2);
    assert_eq!((rows[0].id, rows[1].id), (6, 9));
    assert_eq!(rows[1].payload, vec![3]);
}
