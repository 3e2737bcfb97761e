//! Whether a way or a relation is an area, after the rules of the
//! `osm_is_area` crate.
use vstd::prelude::*;
use crate::ids::Kind;

verus! {

/// What `osm_is_area::way` answers for these tags and refs.
pub uninterp spec fn way_area_of(tags: Seq<(Seq<char>, Seq<char>)>, refs: Seq<u64>) -> bool;

pub open spec fn tag_views(tags: Seq<(String, String)>) -> Seq<(Seq<char>, Seq<char>)> {
    tags.map_values(|t: (String, String)| (t.0@, t.1@))
}

/// A relation with members is an area when tagged `type=multipolygon`.
pub open spec fn relation_area(tags: Seq<(Seq<char>, Seq<char>)>, members: Seq<u64>) -> bool {
    members.len() > 0 && exists|i: int| 0 <= i < tags.len() && tags[i].0 == "type"@ && tags[i].1 == "multipolygon"@
}

/// Relies on `osm_is_area::way`: whether a way is an area, by the crate's
/// polygon-feature table; it is never one with fewer than three refs or
/// without tags.
#[verifier::external_body]
fn way_is_area(tags: &Vec<(String, String)>, refs: &Vec<u64>) -> (r: bool)
    ensures
        r == way_area_of(tag_views(tags@), refs@),
        refs@.len() < 3 ==> !r,
        tags@.len() == 0 ==> !r,
{
    let t: Vec<(&str, &str)> = tags.iter().map(|(k, v)| (k.as_str(), v.as_str())).collect();
    osm_is_area::way(&t, refs)
}

/// Relies on `osm_is_area::relation`: a relation with members is an area
/// when one of its tags is `type=multipolygon`.
#[verifier::external_body]
fn relation_is_area(tags: &Vec<(String, String)>, members: &Vec<u64>) -> (r: bool)
    ensures
        r == relation_area(tag_views(tags@), members@),
{
    let t: Vec<(&str, &str)> = tags.iter().map(|(k, v)| (k.as_str(), v.as_str())).collect();
    osm_is_area::relation(&t, members)
}

/// Whether an element of kind `kind`, with these tags and node refs (for a
/// way) or members (for a relation), is an area. A node never is.
pub fn is_area(kind: Kind, tags: &Vec<(String, String)>, refs: &Vec<u64>) -> (r: bool)
    ensures
        r == match kind {
            Kind::Node => false,
            Kind::Way => way_area_of(tag_views(tags@), refs@),
            Kind::Relation => relation_area(tag_views(tags@), refs@),
        },
        kind == Kind::Way && refs@.len() < 3 ==> !r,
{
    match kind {
        Kind::Node => false,
        Kind::Way => way_is_area(tags, refs),
        Kind::Relation => relation_is_area(tags, refs),
    }
}

} // verus!
