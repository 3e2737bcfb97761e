//! Decoded OSM elements, reduced to the fields that denormalisation reads.
//! Coordinates are kept as OSM stores them: integers in units of 1e-7 degree.
use vstd::prelude::*;
use crate::ids::{Kind, MAX_OSM_ID, spec_feature_id, feature_id};

verus! {

/// A position as (longitude, latitude), each in units of 1e-7 degree.
pub type Position = (i32, i32);

#[derive(Clone, Debug)]
pub struct Node {
    pub id: u64,
    pub lon: i32,
    pub lat: i32,
    pub feature_type: u64,
    pub labels: Vec<u8>,
}

#[derive(Clone, Debug)]
pub struct Way {
    pub id: u64,
    pub feature_type: u64,
    pub is_area: bool,
    pub labels: Vec<u8>,
    /// Node ids, in order.
    pub refs: Vec<u64>,
}

#[derive(Clone, Debug)]
pub struct Relation {
    pub id: u64,
    pub feature_type: u64,
    pub is_area: bool,
    pub labels: Vec<u8>,
    /// Packed members: `way_id * 2 + role`, role 0 for outer and 1 for inner.
    pub members: Vec<u64>,
}

#[derive(Clone, Debug)]
pub enum Decoded {
    Node(Node),
    Way(Way),
    Relation(Relation),
}

/// A dependency read back beside a record: its stored feature id, its
/// position when it is a node, and the stored feature ids of its nodes when
/// it is a way.
#[derive(Clone, Debug)]
pub struct Dep {
    pub id: u64,
    pub position: Option<Position>,
    pub refs: Vec<u64>,
}

/// The stored ids of `kind` for `ids`, each first halved when `halve`.
fn stored_ids(ids: &Vec<u64>, halve: bool, kind: Kind) -> (r: Option<Vec<u64>>)
    ensures
        r is Some <==> forall|i: int| 0 <= i < ids@.len() ==> (if halve { ids@[i] / 2 } else { ids@[i] }) <= MAX_OSM_ID,
        r matches Some(v) ==> v@.len() == ids@.len() && forall|i: int| 0 <= i < v@.len() ==> v@[i]
            == spec_feature_id(kind, if halve { #[trigger] ids@[i] / 2 } else { ids@[i] }),
{
    let mut v: Vec<u64> = Vec::new();
    let mut i: usize = 0;
    while i < ids.len()
        invariant
            i <= ids@.len(),
            v@.len() == i,
            forall|k: int| 0 <= k < i ==> (if halve { ids@[k] / 2 } else { ids@[k] }) <= MAX_OSM_ID,
            forall|k: int| 0 <= k < i ==> v@[k] == spec_feature_id(kind, if halve { #[trigger] ids@[k] / 2 } else { ids@[k] }),
        decreases ids@.len() - i,
    {
        let x = if halve { ids[i] / 2 } else { ids[i] };
        if x > MAX_OSM_ID {
            return None;
        }
        v.push(feature_id(kind, x));
        i = i + 1;
    }
    Some(v)
}

impl Decoded {
    pub open spec fn spec_kind(&self) -> Kind {
        match self {
            Decoded::Node(_) => Kind::Node,
            Decoded::Way(_) => Kind::Way,
            Decoded::Relation(_) => Kind::Relation,
        }
    }

    pub open spec fn spec_osm_id(&self) -> u64 {
        match self {
            Decoded::Node(n) => n.id,
            Decoded::Way(w) => w.id,
            Decoded::Relation(r) => r.id,
        }
    }

    pub open spec fn spec_feature_type(&self) -> u64 {
        match self {
            Decoded::Node(n) => n.feature_type,
            Decoded::Way(w) => w.feature_type,
            Decoded::Relation(r) => r.feature_type,
        }
    }

    /// Whether the element's feature id fits in a `u64`.
    pub open spec fn fits(&self) -> bool {
        self.spec_osm_id() <= MAX_OSM_ID
    }

    pub fn kind(&self) -> (r: Kind)
        ensures
            r == self.spec_kind(),
    {
        match self {
            Decoded::Node(_) => Kind::Node,
            Decoded::Way(_) => Kind::Way,
            Decoded::Relation(_) => Kind::Relation,
        }
    }

    pub fn osm_id(&self) -> (r: u64)
        ensures
            r == self.spec_osm_id(),
    {
        match self {
            Decoded::Node(n) => n.id,
            Decoded::Way(w) => w.id,
            Decoded::Relation(r) => r.id,
        }
    }

    pub fn feature_type(&self) -> (r: u64)
        ensures
            r == self.spec_feature_type(),
    {
        match self {
            Decoded::Node(n) => n.feature_type,
            Decoded::Way(w) => w.feature_type,
            Decoded::Relation(r) => r.feature_type,
        }
    }

    /// The stored ids of the element's dependencies can all be formed.
    pub open spec fn deps_fit(&self) -> bool {
        match self {
            Decoded::Node(_) => true,
            Decoded::Way(w) => forall|i: int| 0 <= i < w.refs@.len() ==> w.refs@[i] <= MAX_OSM_ID,
            Decoded::Relation(r) => forall|i: int| 0 <= i < r.members@.len() ==> r.members@[i] / 2 <= MAX_OSM_ID,
        }
    }

    /// The stored ids of the element's dependencies: its nodes for a way,
    /// its member ways for a relation; none when one cannot be formed.
    pub fn dependency_ids(&self) -> (r: Option<Vec<u64>>)
        ensures
            r is Some <==> self.deps_fit(),
            r matches Some(v) ==> match self {
                Decoded::Node(_) => v@.len() == 0,
                Decoded::Way(w) => v@.len() == w.refs@.len() && forall|i: int| 0 <= i < v@.len() ==> v@[i]
                    == spec_feature_id(Kind::Node, #[trigger] w.refs@[i]),
                Decoded::Relation(x) => v@.len() == x.members@.len() && forall|i: int| 0 <= i < v@.len() ==> v@[i]
                    == spec_feature_id(Kind::Way, #[trigger] x.members@[i] / 2),
            },
    {
        match self {
            Decoded::Node(_) => Some(Vec::new()),
            Decoded::Way(w) => stored_ids(&w.refs, false, Kind::Node),
            Decoded::Relation(x) => stored_ids(&x.members, true, Kind::Way),
        }
    }

    /// The id under which the element is stored and emitted.
    pub fn record_id(&self) -> (r: u64)
        requires
            self.fits(),
        ensures
            r == spec_feature_id(self.spec_kind(), self.spec_osm_id()),
    {
        feature_id(self.kind(), self.osm_id())
    }
}

} // verus!
