//! The denormalisation pass: from a stored record and its dependencies to
//! what is handed to the feature encoder, and from the encoder's bytes to the
//! row written to the spatial index.
use vstd::prelude::*;
use crate::ids::{Kind, Member, spec_feature_id, spec_unpack_member, feature_id, unpack_members};
use crate::record::{Decoded, Dep, Position};
use crate::deps::{node_positions, way_nodes, lists, ref_views, collect_positions, collect_ways};
use crate::bbox::{BBox, map_bounds, bbox_of, lemma_bounds_of_listing};

verus! {

/// Where a row sits in the spatial index: a point for a node, a box for a
/// way or a relation.
#[derive(Clone, Copy, Debug, PartialEq, Eq, Structural)]
pub enum Point {
    Scalar { lon: i32, lat: i32 },
    Interval(BBox),
}

/// A row of the spatial index: the feature id, its key and the encoded feature.
pub struct Row {
    pub id: u64,
    pub point: Point,
    pub payload: Vec<u8>,
}

/// What the encoder is to be asked for one record, or that it is skipped.
pub enum Plan {
    Skip,
    Node { id: u64, lon: i32, lat: i32, feature_type: u64, labels: Vec<u8> },
    Way {
        id: u64,
        feature_type: u64,
        is_area: bool,
        labels: Vec<u8>,
        refs: Vec<u64>,
        /// Node positions by OSM node id.
        positions: Vec<(u64, Position)>,
        bbox: BBox,
    },
    Relation {
        id: u64,
        feature_type: u64,
        is_area: bool,
        labels: Vec<u8>,
        members: Vec<Member>,
        /// Node positions by OSM node id.
        positions: Vec<(u64, Position)>,
        /// Node ids by OSM way id.
        ways: Vec<(u64, Vec<u64>)>,
        bbox: BBox,
    },
}

/// A stored record read back from a bucket, with its dependencies.
pub struct Entry {
    pub record: Decoded,
    pub deps: Vec<Dep>,
}

/// A record is skipped when it is uncategorised, or when it is a way or a
/// relation with fewer than two node positions among its dependencies.
pub open spec fn skipped(place_other: u64, rec: Decoded, deps: Seq<Dep>) -> bool {
    rec.spec_feature_type() == place_other || match rec {
        Decoded::Node(_) => false,
        _ => node_positions(deps).len() <= 1,
    }
}

/// `p` is the plan for `rec` read with `deps`.
pub open spec fn plan_for(place_other: u64, rec: Decoded, deps: Seq<Dep>, p: Plan) -> bool {
    if skipped(place_other, rec, deps) {
        p is Skip
    } else {
        match (rec, p) {
            (Decoded::Node(n), Plan::Node { id, lon, lat, feature_type, labels }) => {
                &&& id == spec_feature_id(Kind::Node, n.id)
                &&& lon == n.lon && lat == n.lat
                &&& feature_type == n.feature_type
                &&& labels@ == n.labels@
            },
            (Decoded::Way(w), Plan::Way { id, feature_type, is_area, labels, refs, positions, bbox }) => {
                &&& id == spec_feature_id(Kind::Way, w.id)
                &&& feature_type == w.feature_type && is_area == w.is_area
                &&& labels@ == w.labels@ && refs@ == w.refs@
                &&& lists(positions@, node_positions(deps))
                &&& map_bounds(bbox, node_positions(deps))
            },
            (
                Decoded::Relation(r),
                Plan::Relation { id, feature_type, is_area, labels, members, positions, ways, bbox },
            ) => {
                &&& id == spec_feature_id(Kind::Relation, r.id)
                &&& feature_type == r.feature_type && is_area == r.is_area
                &&& labels@ == r.labels@
                &&& members@ == r.members@.map_values(|m: u64| spec_unpack_member(m))
                &&& lists(positions@, node_positions(deps))
                &&& lists(ref_views(ways@), way_nodes(deps))
                &&& map_bounds(bbox, node_positions(deps))
            },
            _ => false,
        }
    }
}

impl Plan {
    /// Feature id of a plan that is not a skip.
    pub open spec fn spec_id(&self) -> u64 {
        match self {
            Plan::Skip => 0,
            Plan::Node { id, .. } => *id,
            Plan::Way { id, .. } => *id,
            Plan::Relation { id, .. } => *id,
        }
    }

    /// Index key of a plan that is not a skip.
    pub open spec fn spec_point(&self) -> Point {
        match self {
            Plan::Skip => Point::Scalar { lon: 0, lat: 0 },
            Plan::Node { lon, lat, .. } => Point::Scalar { lon: *lon, lat: *lat },
            Plan::Way { bbox, .. } => Point::Interval(*bbox),
            Plan::Relation { bbox, .. } => Point::Interval(*bbox),
        }
    }

    pub fn is_skip(&self) -> (r: bool)
        ensures
            r == self is Skip,
    {
        match self {
            Plan::Skip => true,
            _ => false,
        }
    }
}

/// Decides what to encode for one record read back with its dependencies.
pub fn plan_record(place_other: u64, rec: Decoded, deps: &Vec<Dep>) -> (p: Plan)
    requires
        rec.fits(),
    ensures
        plan_for(place_other, rec, deps@, p),
{
    if rec.feature_type() == place_other {
        return Plan::Skip;
    }
    match rec {
        Decoded::Node(n) => {
            let id = feature_id(Kind::Node, n.id);
            Plan::Node { id, lon: n.lon, lat: n.lat, feature_type: n.feature_type, labels: n.labels }
        },
        Decoded::Way(w) => {
            let positions = collect_positions(deps);
            if positions.len() <= 1 {
                return Plan::Skip;
            }
            let bbox = bbox_of(&positions);
            proof { lemma_bounds_of_listing(bbox, positions@, node_positions(deps@)); }
            let id = feature_id(Kind::Way, w.id);
            Plan::Way {
                id,
                feature_type: w.feature_type,
                is_area: w.is_area,
                labels: w.labels,
                refs: w.refs,
                positions,
                bbox,
            }
        },
        Decoded::Relation(r) => {
            let positions = collect_positions(deps);
            let ways = collect_ways(deps);
            if positions.len() <= 1 {
                return Plan::Skip;
            }
            let bbox = bbox_of(&positions);
            proof { lemma_bounds_of_listing(bbox, positions@, node_positions(deps@)); }
            let id = feature_id(Kind::Relation, r.id);
            let members = unpack_members(&r.members);
            Plan::Relation {
                id,
                feature_type: r.feature_type,
                is_area: r.is_area,
                labels: r.labels,
                members,
                positions,
                ways,
                bbox,
            }
        },
    }
}

/// A plan yields a row when it is no skip and the encoder gave non-empty bytes.
pub open spec fn emits(plan: Plan, encoded: Option<Seq<u8>>) -> bool {
    !(plan is Skip) && encoded is Some && encoded.unwrap().len() > 0
}

pub open spec fn bytes_of(e: Option<Vec<u8>>) -> Option<Seq<u8>> {
    match e {
        Some(v) => Some(v@),
        None => None,
    }
}

impl Row {
    pub open spec fn view(&self) -> (u64, Point, Seq<u8>) {
        (self.id, self.point, self.payload@)
    }
}

/// The rows that a bucket's plans and encodings yield, in order.
pub open spec fn emitted(plans: Seq<Plan>, encoded: Seq<Option<Seq<u8>>>) -> Seq<(u64, Point, Seq<u8>)>
    decreases plans.len(),
{
    if plans.len() == 0 || encoded.len() == 0 {
        Seq::empty()
    } else {
        let rest = emitted(plans.drop_last(), encoded.drop_last());
        let p = plans.last();
        let e = encoded.last();
        if emits(p, e) {
            rest.push((p.spec_id(), p.spec_point(), e.unwrap()))
        } else {
            rest
        }
    }
}

/// Turns a plan and the encoder's answer into the row to write: none for a
/// skipped record, a failed encoding or an empty one.
pub fn emit(plan: Plan, encoded: Option<Vec<u8>>) -> (r: Option<Row>)
    ensures
        r is Some <==> emits(plan, bytes_of(encoded)),
        r is Some ==> r.unwrap()@ == (plan.spec_id(), plan.spec_point(), bytes_of(encoded).unwrap()),
{
    let ghost id = plan.spec_id();
    let ghost point = plan.spec_point();
    match encoded {
        None => None,
        Some(payload) => {
            if payload.len() == 0 {
                return None;
            }
            match plan {
                Plan::Skip => None,
                Plan::Node { id, lon, lat, .. } => Some(Row { id, point: Point::Scalar { lon, lat }, payload }),
                Plan::Way { id, bbox, .. } => Some(Row { id, point: Point::Interval(bbox), payload }),
                Plan::Relation { id, bbox, .. } => Some(Row { id, point: Point::Interval(bbox), payload }),
            }
        },
    }
}

/// Plans every record of a bucket, in order.
pub fn plan_bucket(place_other: u64, entries: Vec<Entry>) -> (plans: Vec<Plan>)
    requires
        forall|i: int| 0 <= i < entries@.len() ==> (#[trigger] entries@[i]).record.fits(),
    ensures
        plans@.len() == entries@.len(),
        forall|i: int| 0 <= i < entries@.len() ==> plan_for(place_other, (#[trigger] entries@[i]).record,
            entries@[i].deps@, plans@[i]),
{
    let ghost all = entries@;
    let n = entries.len();
    let mut rest = entries;
    let mut rev: Vec<Plan> = Vec::new();
    while rest.len() > 0
        invariant
            n == all.len(),
            rest@ == all.take(rest@.len() as int),
            rev@.len() + rest@.len() == n,
            forall|i: int| 0 <= i < all.len() ==> (#[trigger] all[i]).record.fits(),
            forall|j: int| 0 <= j < rev@.len() ==> plan_for(place_other, all[n - 1 - j].record,
                all[n - 1 - j].deps@, #[trigger] rev@[j]),
        decreases rest@.len(),
    {
        let e = rest.pop().unwrap();
        assert(e == all[n - 1 - rev@.len()]);
        let Entry { record, deps } = e;
        let p = plan_record(place_other, record, &deps);
        rev.push(p);
    }
    let ghost rv = rev@;
    let mut plans: Vec<Plan> = Vec::new();
    while rev.len() > 0
        invariant
            n == all.len(),
            rv.len() == n,
            rev@ == rv.take(rev@.len() as int),
            plans@.len() + rev@.len() == n,
            forall|j: int| 0 <= j < n ==> plan_for(place_other, all[n - 1 - j].record,
                all[n - 1 - j].deps@, #[trigger] rv[j]),
            forall|i: int| 0 <= i < plans@.len() ==> #[trigger] plans@[i] == rv[n - 1 - i],
        decreases rev@.len(),
    {
        let p = rev.pop().unwrap();
        plans.push(p);
    }
    assert forall|i: int| 0 <= i < all.len() implies plan_for(place_other, (#[trigger] all[i]).record,
        all[i].deps@, plans@[i]) by {
        assert(plans@[i] == rv[n - 1 - i]);
        assert(n - 1 - (n - 1 - i) == i);
    }
    plans
}

/// The rows that a bucket yields, in the order of its plans.
pub fn emit_bucket(plans: Vec<Plan>, encoded: Vec<Option<Vec<u8>>>) -> (rows: Vec<Row>)
    requires
        plans@.len() == encoded@.len(),
    ensures
        rows@.map_values(|r: Row| r@) == emitted(plans@, encoded@.map_values(|e| bytes_of(e))),
{
    let ghost ps = plans@;
    let ghost es = encoded@.map_values(|e| bytes_of(e));
    let n = plans.len();
    let mut plans = plans;
    let mut encoded = encoded;
    let mut rev: Vec<Option<Row>> = Vec::new();
    while plans.len() > 0
        invariant
            n == ps.len() == es.len(),
            plans@ == ps.take(plans@.len() as int),
            encoded@.map_values(|e| bytes_of(e)) == es.take(plans@.len() as int),
            plans@.len() == encoded@.len(),
            rev@.len() + plans@.len() == n,
            forall|j: int| 0 <= j < rev@.len() ==> {
                let i = n - 1 - j;
                &&& (#[trigger] rev@[j]) is Some <==> emits(ps[i], es[i])
                &&& rev@[j] is Some ==> rev@[j].unwrap()@ == (ps[i].spec_id(), ps[i].spec_point(), es[i].unwrap())
            },
        decreases plans@.len(),
    {
        let ghost k = plans@.len() - 1;
        let p = plans.pop().unwrap();
        let e = encoded.pop().unwrap();
        proof {
            assert(ps[k] == p);
            assert(es.take(k + 1)[k] == bytes_of(e));
            assert(encoded@.map_values(|e| bytes_of(e)) =~= es.take(k));
        }
        let r = emit(p, e);
        rev.push(r);
    }
    let ghost rv = rev@;
    let mut rows: Vec<Row> = Vec::new();
    let mut taken: usize = 0;
    assert(ps.take(0) =~= Seq::empty());
    while rev.len() > 0
        invariant
            n == ps.len() == es.len(),
            rv.len() == n,
            rev@ == rv.take(rev@.len() as int),
            taken + rev@.len() == n,
            forall|j: int| 0 <= j < n ==> {
                let i = n - 1 - j;
                &&& (#[trigger] rv[j]) is Some <==> emits(ps[i], es[i])
                &&& rv[j] is Some ==> rv[j].unwrap()@ == (ps[i].spec_id(), ps[i].spec_point(), es[i].unwrap())
            },
            rows@.map_values(|r: Row| r@) == emitted(ps.take(taken as int), es.take(taken as int)),
        decreases rev@.len(),
    {
        let r = rev.pop().unwrap();
        proof {
            let j = n - 1 - taken;
            assert(r == rv[j]);
            assert(ps.take(taken + 1).drop_last() =~= ps.take(taken as int));
            assert(es.take(taken + 1).drop_last() =~= es.take(taken as int));
        }
        match r {
            Some(row) => {
                rows.push(row);
            },
            None => {},
        }
        taken = taken + 1;
        assert(rows@.map_values(|r: Row| r@) =~= emitted(ps.take(taken as int), es.take(taken as int)));
    }
    assert(ps.take(n as int) =~= ps);
    assert(es.take(n as int) =~= es);
    rows
}

} // verus!
