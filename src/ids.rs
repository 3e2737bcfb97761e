//! Feature ids written to the spatial index carry the element kind in their
//! remainder modulo three; relation members pack their role in the low bit.
use vstd::prelude::*;

verus! {

/// Kind of an OSM element, as carried in a feature id.
#[derive(Clone, Copy, Debug, PartialEq, Eq, Structural)]
pub enum Kind {
    Node,
    Way,
    Relation,
}

pub open spec fn kind_tag(k: Kind) -> nat {
    match k {
        Kind::Node => 0,
        Kind::Way => 1,
        Kind::Relation => 2,
    }
}

/// The feature id of an element: three times its OSM id plus its kind's tag.
pub open spec fn spec_feature_id(k: Kind, osm_id: u64) -> int {
    osm_id * 3 + kind_tag(k)
}

/// Largest OSM id whose feature id still fits in a `u64`.
pub const MAX_OSM_ID: u64 = 6148914691236517204;

pub fn feature_id(k: Kind, osm_id: u64) -> (r: u64)
    requires
        osm_id <= MAX_OSM_ID,
    ensures
        r == spec_feature_id(k, osm_id),
        r % 3 == kind_tag(k),
        r / 3 == osm_id,
{
    let tag: u64 = match k {
        Kind::Node => 0,
        Kind::Way => 1,
        Kind::Relation => 2,
    };
    osm_id * 3 + tag
}

/// Recovers the OSM id from the feature id of a stored dependency.
pub fn osm_id_of(fid: u64) -> (r: u64)
    ensures
        r == fid / 3,
{
    fid / 3
}

/// Role of a way in a relation.
#[derive(Clone, Copy, Debug, PartialEq, Eq, Structural)]
pub enum Role {
    Outer,
    Inner,
}

/// A relation member, as handed to the feature encoder; members are always
/// ways.
#[derive(Clone, Copy, Debug, PartialEq, Eq, Structural)]
pub struct Member {
    pub way_id: u64,
    pub role: Role,
}

pub open spec fn spec_unpack_member(m: u64) -> Member {
    Member { way_id: m / 2, role: if m % 2 == 0 { Role::Outer } else { Role::Inner } }
}

pub open spec fn spec_pack_member(m: Member) -> int {
    m.way_id * 2 + match m.role {
        Role::Outer => 0int,
        Role::Inner => 1int,
    }
}

/// Reads a packed member: way id in the upper bits, role in the low bit.
pub fn unpack_member(m: u64) -> (r: Member)
    ensures
        r == spec_unpack_member(m),
        spec_pack_member(r) == m,
{
    let role = if m % 2 == 0 { Role::Outer } else { Role::Inner };
    Member { way_id: m / 2, role }
}

/// Packs a member into one integer.
pub fn pack_member(m: Member) -> (r: u64)
    requires
        m.way_id < 0x8000_0000_0000_0000,
    ensures
        r == spec_pack_member(m),
        spec_unpack_member(r) == m,
{
    let bit: u64 = match m.role {
        Role::Outer => 0,
        Role::Inner => 1,
    };
    m.way_id * 2 + bit
}

/// Unpacks every member, in order.
pub fn unpack_members(ms: &Vec<u64>) -> (r: Vec<Member>)
    ensures
        r@ == ms@.map_values(|m: u64| spec_unpack_member(m)),
{
    let mut r: Vec<Member> = Vec::new();
    let mut i: usize = 0;
    while i < ms.len()
        invariant
            i <= ms@.len(),
            r@ =~= ms@.take(i as int).map_values(|m: u64| spec_unpack_member(m)),
        decreases ms@.len() - i,
    {
        r.push(unpack_member(ms[i]));
        i = i + 1;
        assert(r@ =~= ms@.take(i as int).map_values(|m: u64| spec_unpack_member(m)));
    }
    assert(ms@.take(ms@.len() as int) =~= ms@);
    r
}

/// The member that a relation keeps from an entry of its member list: only
/// ways are kept; the role `inner` is inner, any other role outer. None for
/// another member type or a way id that does not fit.
pub fn project_member(is_way: bool, role: &str, member_id: i64) -> (r: Option<u64>)
    ensures
        r is Some <==> is_way && 0 <= member_id,
        r matches Some(m) ==> spec_unpack_member(m) == (Member {
            way_id: member_id as u64,
            role: if role@ == "inner"@ { Role::Inner } else { Role::Outer },
        }),
{
    if !is_way || member_id < 0 {
        return None;
    }
    let inner = role.to_owned() == "inner".to_owned();
    let m = Member { way_id: member_id as u64, role: if inner { Role::Inner } else { Role::Outer } };
    Some(pack_member(m))
}

} // verus!
