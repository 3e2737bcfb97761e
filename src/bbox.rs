//! Bounding boxes of node positions.
use vstd::prelude::*;
use crate::record::Position;
use crate::deps::lists;

verus! {

#[derive(Clone, Copy, Debug, PartialEq, Eq, Structural)]
pub struct BBox {
    pub min_lon: i32,
    pub min_lat: i32,
    pub max_lon: i32,
    pub max_lat: i32,
}

impl BBox {
    pub open spec fn holds(&self, p: Position) -> bool {
        self.min_lon <= p.0 <= self.max_lon && self.min_lat <= p.1 <= self.max_lat
    }

    pub open spec fn well_formed(&self) -> bool {
        self.min_lon <= self.max_lon && self.min_lat <= self.max_lat
    }
}

/// `b` is the smallest box holding the positions listed in `s`.
pub open spec fn bounds<K>(b: BBox, s: Seq<(K, Position)>) -> bool {
    &&& forall|i: int| 0 <= i < s.len() ==> b.holds(#[trigger] s[i].1)
    &&& exists|i: int| 0 <= i < s.len() && #[trigger] s[i].1.0 == b.min_lon
    &&& exists|i: int| 0 <= i < s.len() && #[trigger] s[i].1.1 == b.min_lat
    &&& exists|i: int| 0 <= i < s.len() && #[trigger] s[i].1.0 == b.max_lon
    &&& exists|i: int| 0 <= i < s.len() && #[trigger] s[i].1.1 == b.max_lat
}

/// `b` is the smallest box holding the values of `m`.
pub open spec fn map_bounds(b: BBox, m: Map<u64, Position>) -> bool {
    &&& forall|k: u64| #[trigger] m.contains_key(k) ==> b.holds(m[k])
    &&& exists|k: u64| #[trigger] m.contains_key(k) && m[k].0 == b.min_lon
    &&& exists|k: u64| #[trigger] m.contains_key(k) && m[k].1 == b.min_lat
    &&& exists|k: u64| #[trigger] m.contains_key(k) && m[k].0 == b.max_lon
    &&& exists|k: u64| #[trigger] m.contains_key(k) && m[k].1 == b.max_lat
}

/// The box of a listing is the box of the map it lists.
pub proof fn lemma_bounds_of_listing(b: BBox, s: Seq<(u64, Position)>, m: Map<u64, Position>)
    requires
        lists(s, m),
        bounds(b, s),
    ensures
        map_bounds(b, m),
        b.well_formed(),
{
    assert forall|k: u64| #[trigger] m.contains_key(k) implies b.holds(m[k]) by {
        let i = choose|i: int| 0 <= i < s.len() && #[trigger] s[i].0 == k;
        assert(b.holds(s[i].1));
    }
    let i0 = choose|i: int| 0 <= i < s.len() && #[trigger] s[i].1.0 == b.min_lon;
    assert(m.contains_key(s[i0].0));
    let i1 = choose|i: int| 0 <= i < s.len() && #[trigger] s[i].1.1 == b.min_lat;
    assert(m.contains_key(s[i1].0));
    let i2 = choose|i: int| 0 <= i < s.len() && #[trigger] s[i].1.0 == b.max_lon;
    assert(m.contains_key(s[i2].0));
    let i3 = choose|i: int| 0 <= i < s.len() && #[trigger] s[i].1.1 == b.max_lat;
    assert(m.contains_key(s[i3].0));
    assert(b.holds(s[i0].1));
    assert(b.holds(s[i1].1));
}

/// The smallest box holding every listed position.
pub fn bbox_of<K>(s: &Vec<(K, Position)>) -> (b: BBox)
    requires
        s@.len() > 0,
    ensures
        bounds(b, s@),
        b.well_formed(),
{
    let first = s[0].1;
    let mut b = BBox { min_lon: first.0, min_lat: first.1, max_lon: first.0, max_lat: first.1 };
    let mut i: usize = 1;
    assert(s@.take(1)[0].1 == first);
    while i < s.len()
        invariant
            1 <= i <= s@.len(),
            bounds(b, s@.take(i as int)),
        decreases s@.len() - i,
    {
        let p = s[i].1;
        let ghost t = s@.take(i + 1);
        assert(t.take(i as int) =~= s@.take(i as int));
        if p.0 < b.min_lon {
            b.min_lon = p.0;
        }
        if p.1 < b.min_lat {
            b.min_lat = p.1;
        }
        if p.0 > b.max_lon {
            b.max_lon = p.0;
        }
        if p.1 > b.max_lat {
            b.max_lat = p.1;
        }
        proof {
            let old_t = s@.take(i as int);
            assert(t[i as int].1 == p);
            assert forall|j: int| 0 <= j < t.len() implies b.holds(#[trigger] t[j].1) by {
                if j < i {
                    assert(t[j] == old_t[j]);
                }
            }
            if b.min_lon != p.0 {
                let j = choose|j: int| 0 <= j < old_t.len() && #[trigger] old_t[j].1.0 == b.min_lon;
                assert(t[j].1.0 == b.min_lon);
            }
            if b.min_lat != p.1 {
                let j = choose|j: int| 0 <= j < old_t.len() && #[trigger] old_t[j].1.1 == b.min_lat;
                assert(t[j].1.1 == b.min_lat);
            }
            if b.max_lon != p.0 {
                let j = choose|j: int| 0 <= j < old_t.len() && #[trigger] old_t[j].1.0 == b.max_lon;
                assert(t[j].1.0 == b.max_lon);
            }
            if b.max_lat != p.1 {
                let j = choose|j: int| 0 <= j < old_t.len() && #[trigger] old_t[j].1.1 == b.max_lat;
                assert(t[j].1.1 == b.max_lat);
            }
        }
        i = i + 1;
    }
    assert(s@.take(s@.len() as int) =~= s@);
    assert(b.holds(s@[0].1));
    b
}

} // verus!
