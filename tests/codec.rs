use peermaps_ingest::codec::{decode_record, encode_record, push_u64, read_u64};
use peermaps_ingest::area::is_area;
use peermaps_ingest::ids::{project_member, unpack_member, Kind, Member, Role};
use peermaps_ingest::record::{Decoded, Node, Relation, Way};

fn round_trip(r: &Decoded) -> Decoded {
    let mut out = vec![0xaa];
    encode_record(&mut out, r);
    let (back, end) = decode_record(&out, 1).unwrap();
    assert_eq!(end, out.len());
    back
}

#[test]
fn node_round_trip() {
    let n = Decoded::Node(Node { id: 42, lon: -1_234_567, lat: 200_000_000, feature_type: 5, labels: vec![1, 2, 3] });
    match round_trip(&n) {
        Decoded::Node(b) => {
            assert_eq!((b.id, b.lon, b.lat, b.feature_type), (42, -1_234_567, 200_000_000, 5));
            assert_eq!(b.labels, vec![1, 2, 3]);
        }
        _ => panic!("expected a node"),
    }
}

#[test]
fn way_and_relation_round_trip() {
    let w = Decoded::Way(Way { id: 7, feature_type: 20, is_area: true, labels: vec![], refs: vec![1, 2, 3] });
    match round_trip(&w) {
        Decoded::Way(b) => {
            assert_eq!((b.id, b.feature_type, b.is_area), (7, 20, true));
            assert_eq!(b.refs, vec![1, 2, 3]);
        }
        _ => panic!("expected a way"),
    }
    let r = Decoded::Relation(Relation { id: 9, feature_type: 30, is_area: false, labels: vec![4], members: vec![10, 13] });
    match round_trip(&r) {
        Decoded::Relation(b) => {
            assert_eq!((b.id, b.is_area), (9, false));
            assert_eq!(b.members, vec![10, 13]);
            assert_eq!(b.labels, vec![4]);
        }
        _ => panic!("expected a relation"),
    }
}

#[test]
fn node_byte_layout() {
    let n = Decoded::Node(Node { id: 1, lon: -1, lat: 2, feature_type: 3, labels: vec![9] });
    let mut out = Vec::new();
    encode_record(&mut out, &n);
    assert_eq!(out.len(), 8 * 6 + 1);
    assert_eq!(&out[0..8], &[0; 8]);
    assert_eq!(&out[8..16], &[1, 0, 0, 0, 0, 0, 0, 0]);
    assert_eq!(&out[16..24], &[0xff, 0xff, 0xff, 0xff, 0, 0, 0, 0]);
    assert_eq!(out[48], 9);
}

#[test]
fn malformed_bytes_rejected() {
    let w = Decoded::Way(Way { id: 7, feature_type: 20, is_area: true, labels: vec![5], refs: vec![1] });
    let mut out = Vec::new();
    encode_record(&mut out, &w);
    assert!(decode_record(&out[..out.len() - 1], 0).is_none());
    let mut bad_tag = out.clone();
    bad_tag[0] = 3;
    assert!(decode_record(&bad_tag, 0).is_none());
    let mut bad_bool = out.clone();
    bad_bool[24] = 2;
    assert!(decode_record(&bad_bool, 0).is_none());
    assert!(decode_record(&[], 0).is_none());
}

#[test]
fn integers_little_endian() {
    let mut out = Vec::new();
    push_u64(&mut out, 0x0102);
    assert_eq!(out, vec![2, 1, 0, 0, 0, 0, 0, 0]);
    assert_eq!(read_u64(&out, 0), Some(0x0102));
    assert_eq!(read_u64(&out, 1), None);
}

fn tags(ts: &[(&str, &str)]) -> Vec<(String, String)> {
    ts.iter().map(|(k, v)| (k.to_string(), v.to_string())).collect()
}

#[test]
fn area_rules() {
    let closed = vec![1, 3, 2, 1];
    assert!(is_area(Kind::Way, &tags(&[("waterway", "riverbank")]), &closed));
    assert!(!is_area(Kind::Way, &tags(&[("waterway", "riverbank")]), &vec![1, 3, 2]));
    assert!(!is_area(Kind::Way, &tags(&[]), &closed));
    assert!(is_area(Kind::Relation, &tags(&[("type", "multipolygon")]), &vec![10, 13]));
    assert!(!is_area(Kind::Relation, &tags(&[("type", "multipolygon")]), &vec![]));
    assert!(!is_area(Kind::Relation, &tags(&[("type", "route")]), &vec![10]));
    assert!(!is_area(Kind::Node, &tags(&[("area", "yes")]), &vec![]));
}

#[test]
fn dependency_ids_of_records() {
    let w = Decoded::Way(Way { id: 7, feature_type: 20, is_area: false, labels: vec![], refs: vec![1, 2] });
    assert_eq!(w.dependency_ids(), Some(vec![3, 6]));
    let r = Decoded::Relation(Relation { id: 9, feature_type: 30, is_area: true, labels: vec![], members: vec![10, 13] });
    assert_eq!(r.dependency_ids(), Some(vec![16, 19]));
    let n = Decoded::Node(Node { id: 1, lon: 0, lat: 0, feature_type: 1, labels: vec![] });
    assert_eq!(n.dependency_ids(), Some(vec![]));
    let big = Decoded::Way(Way { id: 7, feature_type: 20, is_area: false, labels: vec![], refs: vec![u64::MAX] });
    assert_eq!(big.dependency_ids(), None);
}

#[test]
fn member_projection() {
    assert_eq!(project_member(true, "inner", 6).map(unpack_member), Some(Member { way_id: 6, role: Role::Inner }));
    assert_eq!(project_member(true, "outer", 5), Some(10));
    assert_eq!(project_member(true, "", 5), Some(10));
    assert_eq!(project_member(false, "inner", 5), None);
    assert_eq!(project_member(true, "inner", -1), None);
}
