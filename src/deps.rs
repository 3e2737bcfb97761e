//! Joining a record with its dependencies: node positions keyed by OSM node
//! id, and node lists keyed by OSM way id. A later dependency with the same
//! id replaces an earlier one.
use vstd::prelude::*;
use crate::record::{Dep, Position};

verus! {

/// Node positions among `deps`, keyed by OSM id (stored id divided by three).
pub open spec fn node_positions(deps: Seq<Dep>) -> Map<u64, Position>
    decreases deps.len(),
{
    if deps.len() == 0 {
        Map::empty()
    } else {
        let m = node_positions(deps.drop_last());
        let d = deps.last();
        match d.position {
            Some(p) => m.insert(d.id / 3, p),
            None => m,
        }
    }
}

/// The stored ids divided by three.
pub open spec fn osm_ids(refs: Seq<u64>) -> Seq<u64> {
    refs.map_values(|x: u64| x / 3)
}

/// Ways among `deps` (no position, at least one ref), keyed by OSM id, each
/// with the OSM ids of its nodes.
pub open spec fn way_nodes(deps: Seq<Dep>) -> Map<u64, Seq<u64>>
    decreases deps.len(),
{
    if deps.len() == 0 {
        Map::empty()
    } else {
        let m = way_nodes(deps.drop_last());
        let d = deps.last();
        if d.position.is_none() && d.refs@.len() > 0 {
            m.insert(d.id / 3, osm_ids(d.refs@))
        } else {
            m
        }
    }
}

pub open spec fn keys_of<V>(s: Seq<(u64, V)>) -> Seq<u64> {
    s.map_values(|e: (u64, V)| e.0)
}

/// `s` lists the entries of `m`, each key once.
pub open spec fn lists<V>(s: Seq<(u64, V)>, m: Map<u64, V>) -> bool {
    &&& keys_of(s).no_duplicates()
    &&& forall|i: int| 0 <= i < s.len() ==> #[trigger] m.contains_key(s[i].0) && m[s[i].0] == s[i].1
    &&& forall|k: u64| m.contains_key(k) ==> exists|i: int| 0 <= i < s.len() && #[trigger] s[i].0 == k
}

pub open spec fn ref_views(s: Seq<(u64, Vec<u64>)>) -> Seq<(u64, Seq<u64>)> {
    s.map_values(|e: (u64, Vec<u64>)| (e.0, e.1@))
}

/// A listing has as many entries as the map it lists.
pub proof fn lemma_lists_len<V>(s: Seq<(u64, V)>, m: Map<u64, V>)
    requires
        lists(s, m),
    ensures
        m.dom().finite(),
        m.len() == s.len(),
{
    let ks = keys_of(s);
    assert(m.dom() =~= ks.to_set()) by {
        assert forall|k: u64| m.contains_key(k) implies ks.contains(k) by {
            let i = choose|i: int| 0 <= i < s.len() && #[trigger] s[i].0 == k;
            assert(ks[i] == k);
        }
        assert forall|k: u64| ks.contains(k) implies m.contains_key(k) by {
            let i = choose|i: int| 0 <= i < ks.len() && ks[i] == k;
            assert(s[i].0 == k);
        }
    }
    ks.unique_seq_to_set();
    vstd::seq_lib::seq_to_set_is_finite(ks);
}

fn find_key<V>(s: &Vec<(u64, V)>, k: u64) -> (r: Option<usize>)
    ensures
        match r {
            Some(i) => i < s@.len() && s@[i as int].0 == k,
            None => forall|i: int| 0 <= i < s@.len() ==> s@[i].0 != k,
        },
{
    let mut i: usize = 0;
    while i < s.len()
        invariant
            i <= s@.len(),
            forall|j: int| 0 <= j < i ==> s@[j].0 != k,
        decreases s@.len() - i,
    {
        if s[i].0 == k {
            return Some(i);
        }
        i = i + 1;
    }
    None
}

/// Sets `k` to `p` in the listing of a position map.
fn put_position(s: &mut Vec<(u64, Position)>, k: u64, p: Position, Ghost(m): Ghost<Map<u64, Position>>)
    requires
        lists(old(s)@, m),
    ensures
        lists(final(s)@, m.insert(k, p)),
{
    let found = find_key(s, k);
    match found {
        Some(i) => {
            s.set(i, (k, p));
            assert(keys_of(s@) =~= keys_of(old(s)@));
            assert forall|k2: u64| #[trigger] m.insert(k, p).contains_key(k2) implies exists|j: int|
                0 <= j < s@.len() && #[trigger] s@[j].0 == k2 by {
                if k2 != k {
                    let j = choose|j: int| 0 <= j < old(s)@.len() && #[trigger] old(s)@[j].0 == k2;
                    assert(s@[j].0 == k2);
                } else {
                    assert(s@[i as int].0 == k2);
                }
            }
            assert forall|j: int| 0 <= j < s@.len() implies #[trigger] m.insert(k, p).contains_key(
                s@[j].0) && m.insert(k, p)[s@[j].0] == s@[j].1 by {
                if j != i {
                    assert(keys_of(old(s)@)[j] != keys_of(old(s)@)[i as int]);
                }
            }
        },
        None => {
            s.push((k, p));
            assert(keys_of(s@) =~= keys_of(old(s)@).push(k));
            assert forall|k2: u64| #[trigger] m.insert(k, p).contains_key(k2) implies exists|j: int|
                0 <= j < s@.len() && #[trigger] s@[j].0 == k2 by {
                if k2 != k {
                    let j = choose|j: int| 0 <= j < old(s)@.len() && #[trigger] old(s)@[j].0 == k2;
                    assert(s@[j].0 == k2);
                } else {
                    assert(s@[s@.len() - 1].0 == k2);
                }
            }
        },
    }
}

/// The node positions among `deps`, one entry per OSM node id.
pub fn collect_positions(deps: &Vec<Dep>) -> (r: Vec<(u64, Position)>)
    ensures
        lists(r@, node_positions(deps@)),
        r@.len() == node_positions(deps@).len(),
{
    let mut r: Vec<(u64, Position)> = Vec::new();
    let mut i: usize = 0;
    while i < deps.len()
        invariant
            i <= deps@.len(),
            lists(r@, node_positions(deps@.take(i as int))),
        decreases deps@.len() - i,
    {
        assert(deps@.take(i + 1).drop_last() =~= deps@.take(i as int));
        let d = &deps[i];
        match d.position {
            Some(p) => {
                put_position(&mut r, d.id / 3, p, Ghost(node_positions(deps@.take(i as int))));
            },
            None => {},
        }
        i = i + 1;
    }
    assert(deps@.take(deps@.len() as int) =~= deps@);
    proof { lemma_lists_len(r@, node_positions(deps@)); }
    r
}

/// Sets `k` to `v` in the listing of a node-list map.
fn put_refs(s: &mut Vec<(u64, Vec<u64>)>, k: u64, v: Vec<u64>, Ghost(m): Ghost<Map<u64, Seq<u64>>>)
    requires
        lists(ref_views(old(s)@), m),
    ensures
        lists(ref_views(final(s)@), m.insert(k, v@)),
{
    let found = find_key(s, k);
    let ghost vv = v@;
    match found {
        Some(i) => {
            s.set(i, (k, v));
            let ghost os = ref_views(old(s)@);
            let ghost ns = ref_views(s@);
            assert(ns =~= os.update(i as int, (k, vv)));
            assert(keys_of(ns) =~= keys_of(os));
            assert forall|k2: u64| #[trigger] m.insert(k, vv).contains_key(k2) implies exists|j: int|
                0 <= j < ns.len() && #[trigger] ns[j].0 == k2 by {
                if k2 != k {
                    let j = choose|j: int| 0 <= j < os.len() && #[trigger] os[j].0 == k2;
                    assert(ns[j].0 == k2);
                } else {
                    assert(ns[i as int].0 == k2);
                }
            }
            assert forall|j: int| 0 <= j < ns.len() implies #[trigger] m.insert(k, vv).contains_key(
                ns[j].0) && m.insert(k, vv)[ns[j].0] == ns[j].1 by {
                if j != i {
                    assert(keys_of(os)[j] != keys_of(os)[i as int]);
                }
            }
        },
        None => {
            proof {
                let os = ref_views(s@);
                assert forall|j: int| 0 <= j < os.len() implies os[j].0 != k by {
                    assert(os[j].0 == s@[j].0);
                }
            }
            s.push((k, v));
            let ghost os = ref_views(old(s)@);
            let ghost ns = ref_views(s@);
            assert(ns =~= os.push((k, vv)));
            assert(keys_of(ns) =~= keys_of(os).push(k));
            assert forall|k2: u64| #[trigger] m.insert(k, vv).contains_key(k2) implies exists|j: int|
                0 <= j < ns.len() && #[trigger] ns[j].0 == k2 by {
                if k2 != k {
                    let j = choose|j: int| 0 <= j < os.len() && #[trigger] os[j].0 == k2;
                    assert(ns[j].0 == k2);
                } else {
                    assert(ns[ns.len() - 1].0 == k2);
                }
            }
        },
    }
}

/// Divides each stored id by three.
pub fn osm_ids_of(refs: &Vec<u64>) -> (r: Vec<u64>)
    ensures
        r@ == osm_ids(refs@),
{
    let mut r: Vec<u64> = Vec::new();
    let mut i: usize = 0;
    while i < refs.len()
        invariant
            i <= refs@.len(),
            r@ =~= osm_ids(refs@.take(i as int)),
        decreases refs@.len() - i,
    {
        r.push(refs[i] / 3);
        i = i + 1;
        assert(r@ =~= osm_ids(refs@.take(i as int)));
    }
    assert(refs@.take(refs@.len() as int) =~= refs@);
    r
}

/// The ways among `deps`, one entry per OSM way id, each with its node ids.
pub fn collect_ways(deps: &Vec<Dep>) -> (r: Vec<(u64, Vec<u64>)>)
    ensures
        lists(ref_views(r@), way_nodes(deps@)),
        r@.len() == way_nodes(deps@).len(),
{
    let mut r: Vec<(u64, Vec<u64>)> = Vec::new();
    let mut i: usize = 0;
    assert(ref_views(r@) =~= Seq::empty());
    while i < deps.len()
        invariant
            i <= deps@.len(),
            lists(ref_views(r@), way_nodes(deps@.take(i as int))),
        decreases deps@.len() - i,
    {
        assert(deps@.take(i + 1).drop_last() =~= deps@.take(i as int));
        let d = &deps[i];
        if d.position.is_none() {
            let drefs = osm_ids_of(&d.refs);
            if drefs.len() > 0 {
                put_refs(&mut r, d.id / 3, drefs, Ghost(way_nodes(deps@.take(i as int))));
            }
        }
        i = i + 1;
    }
    assert(deps@.take(deps@.len() as int) =~= deps@);
    proof { lemma_lists_len(ref_views(r@), way_nodes(deps@)); }
    r
}

} // verus!
