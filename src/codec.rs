//! The byte form of a stored record, as the quad store keeps it.
//!
//! Every integer is eight bytes, little-endian; coordinates are stored as
//! their two's-complement bits. A record is its kind (0 node, 1 way,
//! 2 relation) followed by its fields; a byte or id list is its length
//! followed by its items.
use vstd::prelude::*;
use vstd::bytes::{spec_u64_to_le_bytes, spec_u64_from_le_bytes, lemma_auto_spec_u64_to_from_le_bytes,
    u64_from_le_bytes, u64_to_le_bytes};
use crate::record::{Decoded, Node, Way, Relation};

verus! {

pub open spec fn enc_u64(x: u64) -> Seq<u8> {
    spec_u64_to_le_bytes(x)
}

pub open spec fn enc_i32(x: i32) -> Seq<u8> {
    enc_u64(x as u32 as u64)
}

pub open spec fn enc_bool(b: bool) -> Seq<u8> {
    enc_u64(if b { 1 } else { 0 })
}

pub open spec fn enc_bytes(s: Seq<u8>) -> Seq<u8> {
    enc_u64(s.len() as u64) + s
}

pub open spec fn enc_words(s: Seq<u64>) -> Seq<u8>
    decreases s.len(),
{
    if s.len() == 0 {
        Seq::empty()
    } else {
        enc_words(s.drop_last()) + enc_u64(s.last())
    }
}

pub open spec fn enc_list(s: Seq<u64>) -> Seq<u8> {
    enc_u64(s.len() as u64) + enc_words(s)
}

/// The byte form of a record.
pub open spec fn spec_encode(r: Decoded) -> Seq<u8> {
    match r {
        Decoded::Node(n) => enc_u64(0) + enc_u64(n.id) + enc_i32(n.lon) + enc_i32(n.lat) + enc_u64(
            n.feature_type,
        ) + enc_bytes(n.labels@),
        Decoded::Way(w) => enc_u64(1) + enc_u64(w.id) + enc_u64(w.feature_type) + enc_bool(w.is_area)
            + enc_bytes(w.labels@) + enc_list(w.refs@),
        Decoded::Relation(x) => enc_u64(2) + enc_u64(x.id) + enc_u64(x.feature_type) + enc_bool(
            x.is_area,
        ) + enc_bytes(x.labels@) + enc_list(x.members@),
    }
}

/// Whether `r` holds nothing but what its byte form keeps: list lengths
/// fit in a `u64`.
pub open spec fn encodable(r: Decoded) -> bool {
    match r {
        Decoded::Node(n) => n.labels@.len() <= u64::MAX,
        Decoded::Way(w) => w.labels@.len() <= u64::MAX && w.refs@.len() <= u64::MAX,
        Decoded::Relation(x) => x.labels@.len() <= u64::MAX && x.members@.len() <= u64::MAX,
    }
}

/// Appends the eight bytes of `x`.
pub fn push_u64(out: &mut Vec<u8>, x: u64)
    ensures
        final(out)@ == old(out)@ + enc_u64(x),
{
    let b = u64_to_le_bytes(x);
    let mut i: usize = 0;
    while i < 8
        invariant
            i <= 8,
            b@ == enc_u64(x),
            b@.len() == 8,
            out@ == old(out)@ + b@.take(i as int),
        decreases 8 - i,
    {
        out.push(b[i]);
        i = i + 1;
        assert(out@ =~= old(out)@ + b@.take(i as int));
    }
    assert(b@.take(8) =~= b@);
}

/// Reads the eight bytes at `pos`, if there are eight.
pub fn read_u64(b: &[u8], pos: usize) -> (r: Option<u64>)
    ensures
        b@.len() <= usize::MAX,
        r is Some <==> pos + 8 <= b@.len(),
        r matches Some(x) ==> enc_u64(x) == b@.subrange(pos as int, pos + 8),
        forall|y: u64| pos + 8 <= b@.len() && #[trigger] enc_u64(y) == b@.subrange(pos as int, pos + 8) ==> r
            == Some(y),
{
    let n = b.len();
    if pos > n || n - pos < 8 {
        return None;
    }
    let mut w: Vec<u8> = Vec::new();
    let mut i: usize = 0;
    while i < 8
        invariant
            i <= 8,
            pos + 8 <= b@.len(),
            n == b@.len(),
            w@ == b@.subrange(pos as int, pos + i),
        decreases 8 - i,
    {
        w.push(b[pos + i]);
        i = i + 1;
        assert(w@ =~= b@.subrange(pos as int, pos + i));
    }
    let x = u64_from_le_bytes(w.as_slice());
    proof {
        lemma_auto_spec_u64_to_from_le_bytes();
        assert(spec_u64_to_le_bytes(spec_u64_from_le_bytes(w@)) == w@);
    }
    Some(x)
}

fn push_bytes(out: &mut Vec<u8>, s: &Vec<u8>)
    requires
        s@.len() <= u64::MAX,
    ensures
        final(out)@ == old(out)@ + enc_bytes(s@),
{
    push_u64(out, s.len() as u64);
    let ghost mid = out@;
    let mut i: usize = 0;
    while i < s.len()
        invariant
            i <= s@.len(),
            out@ == mid + s@.take(i as int),
        decreases s@.len() - i,
    {
        out.push(s[i]);
        i = i + 1;
        assert(out@ =~= mid + s@.take(i as int));
    }
    assert(s@.take(s@.len() as int) =~= s@);
    assert(out@ =~= old(out)@ + enc_bytes(s@));
}

fn push_list(out: &mut Vec<u8>, s: &Vec<u64>)
    requires
        s@.len() <= u64::MAX,
    ensures
        final(out)@ == old(out)@ + enc_list(s@),
{
    push_u64(out, s.len() as u64);
    let ghost mid = out@;
    let mut i: usize = 0;
    assert(enc_words(s@.take(0)) =~= Seq::empty());
    while i < s.len()
        invariant
            i <= s@.len(),
            out@ =~= mid + enc_words(s@.take(i as int)),
        decreases s@.len() - i,
    {
        push_u64(out, s[i]);
        assert(s@.take(i + 1).drop_last() =~= s@.take(i as int));
        i = i + 1;
    }
    assert(s@.take(s@.len() as int) =~= s@);
    assert(out@ =~= old(out)@ + enc_list(s@));
}

/// Appends the byte form of `r`.
pub fn encode_record(out: &mut Vec<u8>, r: &Decoded)
    requires
        encodable(*r),
    ensures
        final(out)@ == old(out)@ + spec_encode(*r),
{
    match r {
        Decoded::Node(n) => {
            push_u64(out, 0);
            push_u64(out, n.id);
            push_u64(out, n.lon as u32 as u64);
            push_u64(out, n.lat as u32 as u64);
            push_u64(out, n.feature_type);
            push_bytes(out, &n.labels);
        },
        Decoded::Way(w) => {
            push_u64(out, 1);
            push_u64(out, w.id);
            push_u64(out, w.feature_type);
            push_u64(out, if w.is_area { 1 } else { 0 });
            push_bytes(out, &w.labels);
            push_list(out, &w.refs);
        },
        Decoded::Relation(x) => {
            push_u64(out, 2);
            push_u64(out, x.id);
            push_u64(out, x.feature_type);
            push_u64(out, if x.is_area { 1 } else { 0 });
            push_bytes(out, &x.labels);
            push_list(out, &x.members);
        },
    }
    assert(out@ =~= old(out)@ + spec_encode(*r));
}

proof fn lemma_join(b: Seq<u8>, i: int, j: int, k: int)
    requires
        0 <= i <= j <= k <= b.len(),
    ensures
        b.subrange(i, k) == b.subrange(i, j) + b.subrange(j, k),
{
    assert(b.subrange(i, k) =~= b.subrange(i, j) + b.subrange(j, k));
}

proof fn lemma_head(b: Seq<u8>, pos: int, h: Seq<u8>, t: Seq<u8>)
    requires
        0 <= pos,
        pos + h.len() + t.len() <= b.len(),
        b.subrange(pos, pos + h.len() + t.len()) == h + t,
    ensures
        b.subrange(pos, pos + h.len()) == h,
        b.subrange(pos + h.len(), pos + h.len() + t.len()) == t,
{
    assert(b.subrange(pos, pos + h.len()) =~= (h + t).subrange(0, h.len() as int));
    assert(b.subrange(pos + h.len(), pos + h.len() + t.len()) =~= (h + t).subrange(
        h.len() as int,
        (h.len() + t.len()) as int,
    ));
}

proof fn lemma_enc_u64_len(x: u64)
    ensures
        enc_u64(x).len() == 8,
{
    lemma_auto_spec_u64_to_from_le_bytes();
}

fn read_i32(b: &[u8], pos: usize) -> (r: Option<i32>)
    ensures
        r matches Some(x) ==> pos + 8 <= b@.len() && enc_i32(x) == b@.subrange(pos as int, pos + 8),
        forall|y: i32| pos + 8 <= b@.len() && #[trigger] enc_i32(y) == b@.subrange(pos as int, pos + 8) ==> r
            == Some(y),
{
    match read_u64(b, pos) {
        None => None,
        Some(x) => {
            if x > 0xffff_ffff {
                proof {
                    assert forall|y: i32| pos + 8 <= b@.len() && #[trigger] enc_i32(y) == b@.subrange(pos as int, pos + 8)
                        implies false by {
                        let z = y as u32 as u64;
                        assert(enc_u64(z) == b@.subrange(pos as int, pos + 8));
                        assert(z <= 0xffff_ffff) by (bit_vector)
                            requires
                                z == y as u32 as u64,
                        ;
                    }
                }
                return None;
            }
            let v = x as u32 as i32;
            assert(v as u32 as u64 == x) by (bit_vector)
                requires
                    x <= 0xffff_ffffu64,
                    v == x as u32 as i32,
            ;
            proof {
                assert forall|y: i32| pos + 8 <= b@.len() && #[trigger] enc_i32(y) == b@.subrange(pos as int, pos + 8)
                    implies v == y by {
                    assert(enc_u64(y as u32 as u64) == b@.subrange(pos as int, pos + 8));
                    let z = y as u32 as u64;
                    assert(z == x);
                    assert(z as u32 as i32 == y) by (bit_vector)
                        requires
                            z == y as u32 as u64,
                    ;
                }
            }
            Some(v)
        },
    }
}

fn read_bool(b: &[u8], pos: usize) -> (r: Option<bool>)
    ensures
        r matches Some(x) ==> pos + 8 <= b@.len() && enc_bool(x) == b@.subrange(pos as int, pos + 8),
        forall|y: bool| pos + 8 <= b@.len() && #[trigger] enc_bool(y) == b@.subrange(pos as int, pos + 8) ==> r
            == Some(y),
{
    let x = read_u64(b, pos);
    proof {
        assert forall|y: bool| pos + 8 <= b@.len() && #[trigger] enc_bool(y) == b@.subrange(pos as int, pos + 8)
            implies x == Some(if y { 1u64 } else { 0u64 }) by {
            assert(enc_u64(if y { 1u64 } else { 0u64 }) == b@.subrange(pos as int, pos + 8));
        }
    }
    match x {
        Some(0) => Some(false),
        Some(1) => Some(true),
        _ => None,
    }
}

fn read_bytes(b: &[u8], pos: usize) -> (r: Option<(Vec<u8>, usize)>)
    ensures
        r matches Some((v, end)) ==> pos <= end <= b@.len() && b@.subrange(pos as int, end as int) == enc_bytes(v@)
            && v@.len() <= u64::MAX,
        forall|s: Seq<u8>|
            s.len() <= u64::MAX && pos + 8 + s.len() <= b@.len() && #[trigger] enc_bytes(s) == b@.subrange(
                pos as int,
                pos + 8 + s.len(),
            ) ==> (r matches Some((v, end)) && v@ == s && end == pos + 8 + s.len()),
{
    let n = b.len();
    let len = match read_u64(b, pos) {
        None => {
            proof {
                assert forall|s: Seq<u8>|
                    s.len() <= u64::MAX && pos + 8 + s.len() <= b@.len() && #[trigger] enc_bytes(s) == b@.subrange(
                        pos as int,
                        pos + 8 + s.len(),
                    ) implies false by {
                    lemma_enc_u64_len(s.len() as u64);
                }
            }
            return None;
        },
        Some(len) => len,
    };
    let start = pos + 8;
    proof {
        assert forall|s: Seq<u8>|
            s.len() <= u64::MAX && pos + 8 + s.len() <= b@.len() && #[trigger] enc_bytes(s) == b@.subrange(
                pos as int,
                pos + 8 + s.len(),
            ) implies len == s.len() && b@.subrange(start as int, start + s.len()) == s by {
            lemma_enc_u64_len(s.len() as u64);
            lemma_head(b@, pos as int, enc_u64(s.len() as u64), s);
        }
    }
    if len > (n - start) as u64 {
        return None;
    }
    let len = len as usize;
    let mut v: Vec<u8> = Vec::new();
    let mut i: usize = 0;
    while i < len
        invariant
            n == b@.len(),
            start + len <= n,
            i <= len,
            v@ == b@.subrange(start as int, start + i),
        decreases len - i,
    {
        v.push(b[start + i]);
        i = i + 1;
        assert(v@ =~= b@.subrange(start as int, start + i));
    }
    proof { lemma_join(b@, pos as int, start as int, start + len); }
    Some((v, start + len))
}

proof fn lemma_words(s: Seq<u64>, i: int)
    requires
        0 <= i <= s.len(),
    ensures
        enc_words(s).len() == 8 * s.len(),
        enc_words(s).subrange(0, 8 * i) == enc_words(s.take(i)),
    decreases s.len(),
{
    if s.len() == 0 {
        assert(s.take(i) =~= s);
        assert(enc_words(s).subrange(0, 0) =~= enc_words(s));
    } else {
        let dl = s.drop_last();
        lemma_enc_u64_len(s.last());
        if i == s.len() {
            lemma_words(dl, 0);
            assert(s.take(i) =~= s);
            assert(enc_words(s).subrange(0, 8 * i) =~= enc_words(s));
        } else {
            lemma_words(dl, i);
            assert(dl.take(i) =~= s.take(i));
            assert(enc_words(s).subrange(0, 8 * i) =~= enc_words(dl).subrange(0, 8 * i));
        }
    }
}

pub open spec fn list_at(b: Seq<u8>, pos: int, s: Seq<u64>) -> bool {
    &&& s.len() <= u64::MAX
    &&& pos + 8 + 8 * s.len() <= b.len()
    &&& enc_list(s) == b.subrange(pos, pos + 8 + 8 * s.len())
}

fn read_list(b: &[u8], pos: usize) -> (r: Option<(Vec<u64>, usize)>)
    ensures
        r matches Some((v, end)) ==> pos <= end <= b@.len() && b@.subrange(pos as int, end as int) == enc_list(v@)
            && v@.len() <= u64::MAX,
        forall|s: Seq<u64>| #[trigger] list_at(b@, pos as int, s) ==> (r matches Some((v, end)) && v@ == s && end
            == pos + 8 + 8 * s.len()),
{
    let ghost has = exists|s: Seq<u64>| #[trigger] list_at(b@, pos as int, s);
    let ghost want = choose|s: Seq<u64>| #[trigger] list_at(b@, pos as int, s);
    proof {
        if has {
            lemma_enc_u64_len(want.len() as u64);
            lemma_words(want, 0);
            lemma_head(b@, pos as int, enc_u64(want.len() as u64), enc_words(want));
        }
    }
    let count = match read_u64(b, pos) {
        None => { return None; },
        Some(c) => c,
    };
    let mut v: Vec<u64> = Vec::new();
    let mut cur: usize = pos + 8;
    let mut i: u64 = 0;
    assert(b@.subrange(cur as int, cur as int) =~= enc_words(v@));
    while i < count
        invariant
            pos + 8 <= cur <= b@.len(),
            i <= count,
            v@.len() == i,
            b@.subrange(pos as int, pos + 8) == enc_u64(count),
            b@.subrange(pos + 8, cur as int) == enc_words(v@),
            has ==> list_at(b@, pos as int, want) && count == want.len() && v@ == want.take(i as int) && cur == pos
                + 8 + 8 * i,
            has ==> b@.subrange(pos + 8, pos + 8 + 8 * want.len()) == enc_words(want),
            has == (exists|s: Seq<u64>| #[trigger] list_at(b@, pos as int, s)),
        decreases count - i,
    {
        proof {
            if has {
                lemma_words(want, i + 1);
                assert(want.take(i + 1).drop_last() =~= want.take(i as int));
                lemma_enc_u64_len(want[i as int]);
                lemma_words(want.take(i as int), 0);
                assert(b@.subrange(cur as int, cur + 8) =~= enc_words(want).subrange(8 * i, 8 * i + 8));
                assert(enc_words(want).subrange(8 * i, 8 * i + 8) =~= enc_words(want).subrange(0, 8 * (i + 1)).subrange(8 * i, 8 * i + 8));
                assert(enc_words(want.take(i + 1)).subrange(8 * i, 8 * i + 8) =~= enc_u64(want[i as int]));
            }
        }
        let x = match read_u64(b, cur) {
            None => {
                proof {
                    assert forall|s: Seq<u64>| #[trigger] list_at(b@, pos as int, s) implies false by {
                        assert(has);
                        assert(cur + 8 <= pos + 8 + 8 * want.len());
                    }
                }
                return None;
            },
            Some(x) => x,
        };
        proof {
            lemma_join(b@, pos + 8, cur as int, cur + 8);
            assert(v@.push(x).drop_last() =~= v@);
            if has {
                assert(v@.push(x) =~= want.take(i + 1));
            }
        }
        v.push(x);
        cur = cur + 8;
        i = i + 1;
    }
    proof {
        lemma_join(b@, pos as int, pos + 8, cur as int);
        if has {
            assert(want.take(want.len() as int) =~= want);
        }
        assert forall|s: Seq<u64>| #[trigger] list_at(b@, pos as int, s) implies v@ == s by {
            lemma_enc_u64_len(s.len() as u64);
            lemma_words(s, 0);
            lemma_words(want, 0);
            lemma_head(b@, pos as int, enc_u64(s.len() as u64), enc_words(s));
            assert(s.len() == want.len());
            assert(enc_words(s) == enc_words(want));
            lemma_words_injective(s, want);
        }
    }
    Some((v, cur))
}

proof fn lemma_words_injective(s: Seq<u64>, t: Seq<u64>)
    requires
        s.len() == t.len(),
        enc_words(s) == enc_words(t),
    ensures
        s == t,
    decreases s.len(),
{
    if s.len() > 0 {
        lemma_words(s.drop_last(), 0);
        lemma_words(t.drop_last(), 0);
        lemma_enc_u64_len(s.last());
        lemma_enc_u64_len(t.last());
        let n: int = enc_words(s.drop_last()).len() as int;
        assert(enc_words(s.drop_last()) =~= enc_words(s).subrange(0, n));
        assert(enc_words(t.drop_last()) =~= enc_words(t).subrange(0, n));
        assert(enc_u64(s.last()) =~= enc_words(s).subrange(n, n + 8));
        assert(enc_u64(t.last()) =~= enc_words(t).subrange(n, n + 8));
        lemma_auto_spec_u64_to_from_le_bytes();
        lemma_words_injective(s.drop_last(), t.drop_last());
        assert(s =~= s.drop_last().push(s.last()));
        assert(t =~= t.drop_last().push(t.last()));
    } else {
        assert(s =~= t);
    }
}

/// The byte form of `rec` stands at `pos` in `b`.
pub open spec fn record_at(b: Seq<u8>, pos: int, rec: Decoded) -> bool {
    &&& encodable(rec)
    &&& 0 <= pos
    &&& pos + spec_encode(rec).len() <= b.len()
    &&& b.subrange(pos, pos + spec_encode(rec).len()) == spec_encode(rec)
}

/// Two records hold the same values.
pub open spec fn same_record(a: Decoded, b: Decoded) -> bool {
    match (a, b) {
        (Decoded::Node(x), Decoded::Node(y)) => x.id == y.id && x.lon == y.lon && x.lat == y.lat
            && x.feature_type == y.feature_type && x.labels@ == y.labels@,
        (Decoded::Way(x), Decoded::Way(y)) => x.id == y.id && x.feature_type == y.feature_type && x.is_area
            == y.is_area && x.labels@ == y.labels@ && x.refs@ == y.refs@,
        (Decoded::Relation(x), Decoded::Relation(y)) => x.id == y.id && x.feature_type == y.feature_type
            && x.is_area == y.is_area && x.labels@ == y.labels@ && x.members@ == y.members@,
        _ => false,
    }
}

pub open spec fn tag_of(rec: Decoded) -> u64 {
    match rec {
        Decoded::Node(_) => 0,
        Decoded::Way(_) => 1,
        Decoded::Relation(_) => 2,
    }
}

proof fn lemma_sub(b: Seq<u8>, pos: int, e: Seq<u8>, o: int, l: int)
    requires
        0 <= pos,
        pos + e.len() <= b.len(),
        b.subrange(pos, pos + e.len()) == e,
        0 <= o <= o + l <= e.len(),
    ensures
        b.subrange(pos + o, pos + o + l) == e.subrange(o, o + l),
{
    assert(b.subrange(pos + o, pos + o + l) =~= e.subrange(o, o + l));
}

/// Where each field of a record's byte form lies.
proof fn lemma_layout(b: Seq<u8>, pos: int, rec: Decoded)
    requires
        record_at(b, pos, rec),
    ensures
        b.subrange(pos, pos + 8) == enc_u64(tag_of(rec)),
        rec matches Decoded::Node(n) ==> {
            &&& b.subrange(pos + 8, pos + 16) == enc_u64(n.id)
            &&& b.subrange(pos + 16, pos + 24) == enc_i32(n.lon)
            &&& b.subrange(pos + 24, pos + 32) == enc_i32(n.lat)
            &&& b.subrange(pos + 32, pos + 40) == enc_u64(n.feature_type)
            &&& pos + 48 + n.labels@.len() <= b.len()
            &&& b.subrange(pos + 40, pos + 48 + n.labels@.len()) == enc_bytes(n.labels@)
            &&& spec_encode(rec).len() == 48 + n.labels@.len()
        },
        rec matches Decoded::Way(w) ==> {
            &&& b.subrange(pos + 8, pos + 16) == enc_u64(w.id)
            &&& b.subrange(pos + 16, pos + 24) == enc_u64(w.feature_type)
            &&& b.subrange(pos + 24, pos + 32) == enc_bool(w.is_area)
            &&& pos + 40 + w.labels@.len() <= b.len()
            &&& b.subrange(pos + 32, pos + 40 + w.labels@.len()) == enc_bytes(w.labels@)
            &&& list_at(b, pos + 40 + w.labels@.len(), w.refs@)
            &&& spec_encode(rec).len() == 48 + w.labels@.len() + 8 * w.refs@.len()
        },
        rec matches Decoded::Relation(x) ==> {
            &&& b.subrange(pos + 8, pos + 16) == enc_u64(x.id)
            &&& b.subrange(pos + 16, pos + 24) == enc_u64(x.feature_type)
            &&& b.subrange(pos + 24, pos + 32) == enc_bool(x.is_area)
            &&& pos + 40 + x.labels@.len() <= b.len()
            &&& b.subrange(pos + 32, pos + 40 + x.labels@.len()) == enc_bytes(x.labels@)
            &&& list_at(b, pos + 40 + x.labels@.len(), x.members@)
            &&& spec_encode(rec).len() == 48 + x.labels@.len() + 8 * x.members@.len()
        },
{
    lemma_auto_spec_u64_to_from_le_bytes();
    let e = spec_encode(rec);
    match rec {
        Decoded::Node(n) => {
            let l = n.labels@.len() as int;
            lemma_sub(b, pos, e, 0, 8);
            lemma_sub(b, pos, e, 8, 8);
            lemma_sub(b, pos, e, 16, 8);
            lemma_sub(b, pos, e, 24, 8);
            lemma_sub(b, pos, e, 32, 8);
            lemma_sub(b, pos, e, 40, 8 + l);
            assert(e.subrange(0, 8) =~= enc_u64(0));
            assert(e.subrange(8, 16) =~= enc_u64(n.id));
            assert(e.subrange(16, 24) =~= enc_i32(n.lon));
            assert(e.subrange(24, 32) =~= enc_i32(n.lat));
            assert(e.subrange(32, 40) =~= enc_u64(n.feature_type));
            assert(e.subrange(40, 48 + l) =~= enc_bytes(n.labels@));
        },
        Decoded::Way(w) => {
            let l = w.labels@.len() as int;
            let m = w.refs@.len() as int;
            lemma_words(w.refs@, 0);
            lemma_sub(b, pos, e, 0, 8);
            lemma_sub(b, pos, e, 8, 8);
            lemma_sub(b, pos, e, 16, 8);
            lemma_sub(b, pos, e, 24, 8);
            lemma_sub(b, pos, e, 32, 8 + l);
            lemma_sub(b, pos, e, 40 + l, 8 + 8 * m);
            assert(e.subrange(0, 8) =~= enc_u64(1));
            assert(e.subrange(8, 16) =~= enc_u64(w.id));
            assert(e.subrange(16, 24) =~= enc_u64(w.feature_type));
            assert(e.subrange(24, 32) =~= enc_bool(w.is_area));
            assert(e.subrange(32, 40 + l) =~= enc_bytes(w.labels@));
            assert(e.subrange(40 + l, 48 + l + 8 * m) =~= enc_list(w.refs@));
        },
        Decoded::Relation(x) => {
            let l = x.labels@.len() as int;
            let m = x.members@.len() as int;
            lemma_words(x.members@, 0);
            lemma_sub(b, pos, e, 0, 8);
            lemma_sub(b, pos, e, 8, 8);
            lemma_sub(b, pos, e, 16, 8);
            lemma_sub(b, pos, e, 24, 8);
            lemma_sub(b, pos, e, 32, 8 + l);
            lemma_sub(b, pos, e, 40 + l, 8 + 8 * m);
            assert(e.subrange(0, 8) =~= enc_u64(2));
            assert(e.subrange(8, 16) =~= enc_u64(x.id));
            assert(e.subrange(16, 24) =~= enc_u64(x.feature_type));
            assert(e.subrange(24, 32) =~= enc_bool(x.is_area));
            assert(e.subrange(32, 40 + l) =~= enc_bytes(x.labels@));
            assert(e.subrange(40 + l, 48 + l + 8 * m) =~= enc_list(x.members@));
        },
    }
}

/// Reads the record whose byte form starts at `pos`, and where it ends.
/// It succeeds exactly when a record's byte form stands there.
pub fn decode_record(b: &[u8], pos: usize) -> (r: Option<(Decoded, usize)>)
    ensures
        r matches Some((rec, end)) ==> pos <= end <= b@.len() && b@.subrange(pos as int, end as int)
            == spec_encode(rec) && encodable(rec),
        forall|rec: Decoded| #[trigger] record_at(b@, pos as int, rec) ==> (r matches Some((x, end)) && same_record(
            x,
            rec,
        ) && end == pos + spec_encode(rec).len()),
{
    let tag = match read_u64(b, pos) {
        None => {
            proof {
                assert forall|rec: Decoded| #[trigger] record_at(b@, pos as int, rec) implies false by {
                    lemma_layout(b@, pos as int, rec);
                }
            }
            return None;
        },
        Some(t) => t,
    };
    let id = match read_u64(b, pos + 8) {
        None => {
            proof {
                assert forall|rec: Decoded| #[trigger] record_at(b@, pos as int, rec) implies false by {
                    lemma_layout(b@, pos as int, rec);
                }
            }
            return None;
        },
        Some(x) => x,
    };
    let fields = pos + 16;
    proof { lemma_join(b@, pos as int, pos + 8, fields as int); }
    if b.len() - fields < 32 {
        proof {
            assert forall|rec: Decoded| #[trigger] record_at(b@, pos as int, rec) implies false by {
                lemma_layout(b@, pos as int, rec);
            }
        }
        return None;
    }
    if tag == 0 {
        let lon = read_i32(b, fields);
        let lat = read_i32(b, fields + 8);
        let ft = read_u64(b, fields + 16);
        let labels = read_bytes(b, fields + 24);
        match (lon, lat, ft, labels) {
            (Some(lon), Some(lat), Some(ft), Some((labels, end))) => {
                proof {
                    lemma_join(b@, pos as int, fields as int, fields + 8);
                    lemma_join(b@, pos as int, fields + 8, fields + 16);
                    lemma_join(b@, pos as int, fields + 16, fields + 24);
                    lemma_join(b@, pos as int, fields + 24, end as int);
                }
                let rec = Decoded::Node(Node { id, lon, lat, feature_type: ft, labels });
                assert(b@.subrange(pos as int, end as int) =~= spec_encode(rec));
                proof {
                    assert forall|r2: Decoded| #[trigger] record_at(b@, pos as int, r2) implies same_record(rec, r2)
                        && end == pos + spec_encode(r2).len() by {
                        lemma_layout(b@, pos as int, r2);
                    }
                }
                Some((rec, end))
            },
            _ => {
                proof {
                    assert forall|rec: Decoded| #[trigger] record_at(b@, pos as int, rec) implies false by {
                        lemma_layout(b@, pos as int, rec);
                    }
                }
                None
            },
        }
    } else if tag == 1 || tag == 2 {
        let ft = read_u64(b, fields);
        let is_area = read_bool(b, fields + 8);
        let labels = read_bytes(b, fields + 16);
        match (ft, is_area, labels) {
            (Some(ft), Some(is_area), Some((labels, list_pos))) => {
                let list = read_list(b, list_pos);
                match list {
                    Some((list, end)) => {
                        proof {
                            lemma_join(b@, pos as int, fields as int, fields + 8);
                            lemma_join(b@, pos as int, fields + 8, fields + 16);
                            lemma_join(b@, pos as int, fields + 16, list_pos as int);
                            lemma_join(b@, pos as int, list_pos as int, end as int);
                        }
                        let rec = if tag == 1 {
                            Decoded::Way(Way { id, feature_type: ft, is_area, labels, refs: list })
                        } else {
                            Decoded::Relation(Relation { id, feature_type: ft, is_area, labels, members: list })
                        };
                        assert(b@.subrange(pos as int, end as int) =~= spec_encode(rec));
                        proof {
                            assert forall|r2: Decoded| #[trigger] record_at(b@, pos as int, r2) implies same_record(
                                rec,
                                r2,
                            ) && end == pos + spec_encode(r2).len() by {
                                lemma_layout(b@, pos as int, r2);
                            }
                        }
                        Some((rec, end))
                    },
                    None => {
                        proof {
                            assert forall|rec: Decoded| #[trigger] record_at(b@, pos as int, rec) implies false by {
                                lemma_layout(b@, pos as int, rec);
                            }
                        }
                        None
                    },
                }
            },
            _ => {
                proof {
                    assert forall|rec: Decoded| #[trigger] record_at(b@, pos as int, rec) implies false by {
                        lemma_layout(b@, pos as int, rec);
                    }
                }
                None
            },
        }
    } else {
        proof {
            assert forall|rec: Decoded| #[trigger] record_at(b@, pos as int, rec) implies false by {
                lemma_layout(b@, pos as int, rec);
            }
        }
        None
    }
}

/// A record's byte form, wherever it stands among other bytes, is read back
/// by `decode_record` as the same record, ending right after it.
pub proof fn lemma_encoding_reads_back(pre: Seq<u8>, rec: Decoded, post: Seq<u8>)
    requires
        encodable(rec),
    ensures
        record_at(pre + spec_encode(rec) + post, pre.len() as int, rec),
{
    let b = pre + spec_encode(rec) + post;
    assert(b.subrange(pre.len() as int, (pre.len() + spec_encode(rec).len()) as int) =~= spec_encode(rec));
}

} // verus!
