//! Properties of the rows that the denormalisation pass writes.
use vstd::prelude::*;
use crate::ids::kind_tag;
use crate::record::{Decoded, Dep};
use crate::deps::node_positions;
use crate::bbox::map_bounds;
use crate::process::{Plan, Point, plan_for, emits, emitted, skipped};

verus! {

/// No row is written for an uncategorised record.
pub proof fn lemma_rows_are_categorised(
    place_other: u64,
    rec: Decoded,
    deps: Seq<Dep>,
    p: Plan,
    encoded: Option<Seq<u8>>,
)
    requires
        plan_for(place_other, rec, deps, p),
        emits(p, encoded),
    ensures
        rec.spec_feature_type() != place_other,
{
}

/// A row written for a way or a relation is keyed by a well-formed box that
/// is the smallest holding its dependencies' node positions, of which there
/// are at least two, under distinct node ids.
pub proof fn lemma_row_boxes(
    place_other: u64,
    rec: Decoded,
    deps: Seq<Dep>,
    p: Plan,
    encoded: Option<Seq<u8>>,
)
    requires
        !(rec is Node),
        plan_for(place_other, rec, deps, p),
        emits(p, encoded),
    ensures
        node_positions(deps).len() >= 2,
        p.spec_point() matches Point::Interval(b) && b.well_formed() && map_bounds(b, node_positions(deps)),
{
    let m = node_positions(deps);
    if let Point::Interval(b) = p.spec_point() {
        let k = choose|k: u64| #[trigger] m.contains_key(k) && m[k].0 == b.min_lon;
        assert(b.holds(m[k]));
    }
}

/// The id of a written row is three times the element's OSM id plus 0 for a
/// node, 1 for a way and 2 for a relation.
pub proof fn lemma_row_ids(
    place_other: u64,
    rec: Decoded,
    deps: Seq<Dep>,
    p: Plan,
    encoded: Option<Seq<u8>>,
)
    requires
        rec.fits(),
        plan_for(place_other, rec, deps, p),
        emits(p, encoded),
    ensures
        p.spec_id() % 3 == kind_tag(rec.spec_kind()),
        p.spec_id() / 3 == rec.spec_osm_id(),
        rec is Node ==> p.spec_id() % 3 == 0,
        rec is Way ==> p.spec_id() % 3 == 1,
        rec is Relation ==> p.spec_id() % 3 == 2,
{
}

/// A bucket yields at most one row per record.
pub proof fn lemma_one_row_per_record(plans: Seq<Plan>, encoded: Seq<Option<Seq<u8>>>)
    ensures
        emitted(plans, encoded).len() <= plans.len(),
        emitted(plans, encoded).len() <= encoded.len(),
    decreases plans.len(),
{
    if plans.len() > 0 && encoded.len() > 0 {
        lemma_one_row_per_record(plans.drop_last(), encoded.drop_last());
    }
}

/// An empty bucket yields no rows.
pub proof fn lemma_empty_bucket(encoded: Seq<Option<Seq<u8>>>)
    ensures
        emitted(Seq::empty(), encoded).len() == 0,
{
}

/// Planning a record again, with the same dependencies, gives the same
/// decision, the same id and the same key; with the same encoding it yields
/// the same row.
pub proof fn lemma_replanning_agrees(
    place_other: u64,
    rec: Decoded,
    deps: Seq<Dep>,
    first: Plan,
    second: Plan,
    encoded: Option<Seq<u8>>,
)
    requires
        plan_for(place_other, rec, deps, first),
        plan_for(place_other, rec, deps, second),
    ensures
        first is Skip <==> second is Skip,
        !(first is Skip) ==> first.spec_id() == second.spec_id() && first.spec_point() == second.spec_point(),
        emits(first, encoded) <==> emits(second, encoded),
{
    if !(first is Skip) && !(rec is Node) {
        let m = node_positions(deps);
        if let (Point::Interval(a), Point::Interval(b)) = (first.spec_point(), second.spec_point()) {
            let k0 = choose|k: u64| #[trigger] m.contains_key(k) && m[k].0 == a.min_lon;
            let k1 = choose|k: u64| #[trigger] m.contains_key(k) && m[k].1 == a.min_lat;
            let k2 = choose|k: u64| #[trigger] m.contains_key(k) && m[k].0 == a.max_lon;
            let k3 = choose|k: u64| #[trigger] m.contains_key(k) && m[k].1 == a.max_lat;
            let j0 = choose|k: u64| #[trigger] m.contains_key(k) && m[k].0 == b.min_lon;
            let j1 = choose|k: u64| #[trigger] m.contains_key(k) && m[k].1 == b.min_lat;
            let j2 = choose|k: u64| #[trigger] m.contains_key(k) && m[k].0 == b.max_lon;
            let j3 = choose|k: u64| #[trigger] m.contains_key(k) && m[k].1 == b.max_lat;
            assert(a.holds(m[j0]) && a.holds(m[j1]) && a.holds(m[j2]) && a.holds(m[j3]));
            assert(b.holds(m[k0]) && b.holds(m[k1]) && b.holds(m[k2]) && b.holds(m[k3]));
            assert(a == b);
        }
    }
}

/// A way whose dependencies give at most one node position (for instance
/// two refs to the same node) is skipped.
pub proof fn lemma_short_way_skipped(place_other: u64, rec: Decoded, deps: Seq<Dep>, p: Plan)
    requires
        rec is Way,
        node_positions(deps).len() <= 1,
        plan_for(place_other, rec, deps, p),
    ensures
        p is Skip,
{
}

/// A categorised relation without members but with at least two node
/// positions is planned with an empty member list, and yields a row exactly
/// when the encoder gives non-empty bytes.
pub proof fn lemma_memberless_relation(
    place_other: u64,
    rec: Decoded,
    deps: Seq<Dep>,
    p: Plan,
    encoded: Option<Seq<u8>>,
)
    requires
        rec matches Decoded::Relation(r) && r.members@.len() == 0,
        rec.spec_feature_type() != place_other,
        node_positions(deps).len() >= 2,
        plan_for(place_other, rec, deps, p),
    ensures
        p matches Plan::Relation { members, .. } && members@.len() == 0,
        emits(p, encoded) <==> encoded is Some && encoded.unwrap().len() > 0,
{
    assert(!skipped(place_other, rec, deps));
}

} // verus!
