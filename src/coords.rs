//! Vectors of single-precision values held as bit patterns, their order, the
//! mapping from source space to output space, and bounding boxes.
use vstd::prelude::*;

verus! {

/// The bit pattern of positive infinity.
pub const POSITIVE_INFINITY: u32 = 0x7f80_0000;

/// The bit pattern of negative infinity.
pub const NEGATIVE_INFINITY: u32 = 0xff80_0000;

/// The bit pattern of zero.
pub const ZERO: u32 = 0;

/// A three-component vector; each component is the IEEE-754 single-precision
/// bit pattern of its value.
#[derive(Clone, Copy, Debug, PartialEq, Eq, Structural)]
pub struct Vec3 {
    pub x: u32,
    pub y: u32,
    pub z: u32,
}

/// A two-component vector of single-precision bit patterns.
#[derive(Clone, Copy, Debug, PartialEq, Eq, Structural)]
pub struct Vec2 {
    pub u: u32,
    pub v: u32,
}

/// A rotation quaternion `(x, y, z, w)` of single-precision bit patterns.
#[derive(Clone, Copy, Debug, PartialEq, Eq, Structural)]
pub struct Quat {
    pub x: u32,
    pub y: u32,
    pub z: u32,
    pub w: u32,
}

/// The position of a bit pattern in the IEEE-754 total order: negative values
/// (sign bit set) come below positive ones and order by decreasing magnitude,
/// `-0` lies just below `+0`.
pub open spec fn order_key(b: u32) -> int {
    if b >= 0x8000_0000 {
        0xffff_ffff - b
    } else {
        b + 0x8000_0000
    }
}

/// The lesser of two values in the total order.
pub open spec fn lesser(a: u32, b: u32) -> u32 {
    if order_key(b) < order_key(a) {
        b
    } else {
        a
    }
}

/// The greater of two values in the total order.
pub open spec fn greater(a: u32, b: u32) -> u32 {
    if order_key(b) > order_key(a) {
        b
    } else {
        a
    }
}

/// `a` comes before `b` in the total order.
pub fn precedes(a: u32, b: u32) -> (r: bool)
    ensures
        r == (order_key(a) < order_key(b)),
{
    let ka: u32 = if a >= 0x8000_0000 { 0xffff_ffff - a } else { a + 0x8000_0000 };
    let kb: u32 = if b >= 0x8000_0000 { 0xffff_ffff - b } else { b + 0x8000_0000 };
    ka < kb
}

/// Output space from source space: output x is source y, output y is source z,
/// output z is source x.
pub open spec fn spec_map_coords(v: Vec3) -> Vec3 {
    Vec3 { x: v.y, y: v.z, z: v.x }
}

/// Maps a vector from source space to output space.
pub fn map_coords(v: Vec3) -> (r: Vec3)
    ensures
        r == spec_map_coords(v),
{
    Vec3 { x: v.y, y: v.z, z: v.x }
}

/// The least of `s` in the total order, positive infinity for an empty
/// sequence. A single element is its own least, whatever its pattern.
pub open spec fn axis_min(s: Seq<u32>) -> u32
    decreases s.len(),
{
    if s.len() == 0 {
        POSITIVE_INFINITY
    } else if s.len() == 1 {
        s[0]
    } else {
        lesser(axis_min(s.drop_last()), s.last())
    }
}

/// The greatest of `s` in the total order, negative infinity for an empty
/// sequence. A single element is its own greatest, whatever its pattern.
pub open spec fn axis_max(s: Seq<u32>) -> u32
    decreases s.len(),
{
    if s.len() == 0 {
        NEGATIVE_INFINITY
    } else if s.len() == 1 {
        s[0]
    } else {
        greater(axis_max(s.drop_last()), s.last())
    }
}

/// The x components of `ps`.
pub open spec fn xs(ps: Seq<Vec3>) -> Seq<u32> {
    ps.map_values(|p: Vec3| p.x)
}

/// The y components of `ps`.
pub open spec fn ys(ps: Seq<Vec3>) -> Seq<u32> {
    ps.map_values(|p: Vec3| p.y)
}

/// The z components of `ps`.
pub open spec fn zs(ps: Seq<Vec3>) -> Seq<u32> {
    ps.map_values(|p: Vec3| p.z)
}

/// The corner of the axis-aligned box of `ps` with the least components.
pub open spec fn bounds_min(ps: Seq<Vec3>) -> Vec3 {
    Vec3 { x: axis_min(xs(ps)), y: axis_min(ys(ps)), z: axis_min(zs(ps)) }
}

/// The corner of the axis-aligned box of `ps` with the greatest components.
pub open spec fn bounds_max(ps: Seq<Vec3>) -> Vec3 {
    Vec3 { x: axis_max(xs(ps)), y: axis_max(ys(ps)), z: axis_max(zs(ps)) }
}

/// `ps` mapped to output space.
pub open spec fn mapped(ps: Seq<Vec3>) -> Seq<Vec3> {
    ps.map_values(|p: Vec3| spec_map_coords(p))
}

/// The axis-aligned bounding box of `ps`, as its two corners.
pub fn bounding_box(ps: &Vec<Vec3>) -> (r: (Vec3, Vec3))
    ensures
        r.0 == bounds_min(ps@),
        r.1 == bounds_max(ps@),
{
    let mut lo = Vec3 { x: POSITIVE_INFINITY, y: POSITIVE_INFINITY, z: POSITIVE_INFINITY };
    let mut hi = Vec3 { x: NEGATIVE_INFINITY, y: NEGATIVE_INFINITY, z: NEGATIVE_INFINITY };
    let mut i: usize = 0;
    while i < ps.len()
        invariant
            i <= ps@.len(),
            lo == bounds_min(ps@.subrange(0, i as int)),
            hi == bounds_max(ps@.subrange(0, i as int)),
        decreases ps@.len() - i,
    {
        let p = ps[i];
        let ghost pre = ps@.subrange(0, i as int);
        let ghost next = ps@.subrange(0, i + 1);
        assert(xs(next).drop_last() =~= xs(pre));
        assert(ys(next).drop_last() =~= ys(pre));
        assert(zs(next).drop_last() =~= zs(pre));
        if i == 0 {
            lo = p;
            hi = p;
        } else {
            if precedes(p.x, lo.x) {
                lo.x = p.x;
            }
            if precedes(p.y, lo.y) {
                lo.y = p.y;
            }
            if precedes(p.z, lo.z) {
                lo.z = p.z;
            }
            if precedes(hi.x, p.x) {
                hi.x = p.x;
            }
            if precedes(hi.y, p.y) {
                hi.y = p.y;
            }
            if precedes(hi.z, p.z) {
                hi.z = p.z;
            }
        }
        i = i + 1;
    }
    assert(ps@.subrange(0, ps@.len() as int) =~= ps@);
    (lo, hi)
}

/// Of a non-empty sequence, the least value in the total order is one of its
/// elements and lies at or below every element.
pub proof fn lemma_axis_min_is_least(s: Seq<u32>)
    ensures
        forall|i: int| 0 <= i < s.len() ==> order_key(axis_min(s)) <= order_key(#[trigger] s[i]),
        s.len() > 0 ==> exists|i: int| 0 <= i < s.len() && s[i] == axis_min(s),
    decreases s.len(),
{
    if s.len() > 0 {
        let t = s.drop_last();
        lemma_axis_min_is_least(t);
        assert forall|i: int| 0 <= i < s.len() implies order_key(axis_min(s)) <= order_key(
            #[trigger] s[i],
        ) by {
            if i < s.len() - 1 {
                assert(s[i] == t[i]);
            }
        }
        if t.len() > 0 && axis_min(s) == axis_min(t) {
            let j = choose|j: int| 0 <= j < t.len() && t[j] == axis_min(t);
            assert(s[j] == axis_min(s));
        } else {
            assert(s[s.len() - 1] == axis_min(s));
        }
    }
}

/// Of a non-empty sequence, the greatest value in the total order is one of
/// its elements and lies at or above every element.
pub proof fn lemma_axis_max_is_greatest(s: Seq<u32>)
    ensures
        forall|i: int| 0 <= i < s.len() ==> order_key(#[trigger] s[i]) <= order_key(axis_max(s)),
        s.len() > 0 ==> exists|i: int| 0 <= i < s.len() && s[i] == axis_max(s),
    decreases s.len(),
{
    if s.len() > 0 {
        let t = s.drop_last();
        lemma_axis_max_is_greatest(t);
        assert forall|i: int| 0 <= i < s.len() implies order_key(#[trigger] s[i]) <= order_key(
            axis_max(s),
        ) by {
            if i < s.len() - 1 {
                assert(s[i] == t[i]);
            }
        }
        if t.len() > 0 && axis_max(s) == axis_max(t) {
            let j = choose|j: int| 0 <= j < t.len() && t[j] == axis_max(t);
            assert(s[j] == axis_max(s));
        } else {
            assert(s[s.len() - 1] == axis_max(s));
        }
    }
}

/// The corners of a bounding box are exactly the componentwise least and
/// greatest values over the points it bounds, ties and negative values
/// included: every component of a corner is taken by some point, and no point
/// lies outside the box on any axis.
pub proof fn lemma_bounds_are_exact(ps: Seq<Vec3>)
    requires
        ps.len() > 0,
    ensures
        forall|i: int|
            0 <= i < ps.len() ==> {
                &&& order_key(bounds_min(ps).x) <= order_key(#[trigger] ps[i].x) <= order_key(
                    bounds_max(ps).x,
                )
                &&& order_key(bounds_min(ps).y) <= order_key(ps[i].y) <= order_key(
                    bounds_max(ps).y,
                )
                &&& order_key(bounds_min(ps).z) <= order_key(ps[i].z) <= order_key(
                    bounds_max(ps).z,
                )
            },
        exists|i: int| 0 <= i < ps.len() && ps[i].x == bounds_min(ps).x,
        exists|i: int| 0 <= i < ps.len() && ps[i].y == bounds_min(ps).y,
        exists|i: int| 0 <= i < ps.len() && ps[i].z == bounds_min(ps).z,
        exists|i: int| 0 <= i < ps.len() && ps[i].x == bounds_max(ps).x,
        exists|i: int| 0 <= i < ps.len() && ps[i].y == bounds_max(ps).y,
        exists|i: int| 0 <= i < ps.len() && ps[i].z == bounds_max(ps).z,
{
    lemma_axis_min_is_least(xs(ps));
    lemma_axis_min_is_least(ys(ps));
    lemma_axis_min_is_least(zs(ps));
    lemma_axis_max_is_greatest(xs(ps));
    lemma_axis_max_is_greatest(ys(ps));
    lemma_axis_max_is_greatest(zs(ps));
    assert forall|i: int| 0 <= i < ps.len() implies {
        &&& order_key(bounds_min(ps).x) <= order_key(#[trigger] ps[i].x) <= order_key(
            bounds_max(ps).x,
        )
        &&& order_key(bounds_min(ps).y) <= order_key(ps[i].y) <= order_key(bounds_max(ps).y)
        &&& order_key(bounds_min(ps).z) <= order_key(ps[i].z) <= order_key(bounds_max(ps).z)
    } by {
        assert(xs(ps)[i] == ps[i].x);
        assert(ys(ps)[i] == ps[i].y);
        assert(zs(ps)[i] == ps[i].z);
    }
    let a = choose|j: int| 0 <= j < xs(ps).len() && xs(ps)[j] == axis_min(xs(ps));
    assert(ps[a].x == bounds_min(ps).x);
    let b = choose|j: int| 0 <= j < ys(ps).len() && ys(ps)[j] == axis_min(ys(ps));
    assert(ps[b].y == bounds_min(ps).y);
    let c = choose|j: int| 0 <= j < zs(ps).len() && zs(ps)[j] == axis_min(zs(ps));
    assert(ps[c].z == bounds_min(ps).z);
    let d = choose|j: int| 0 <= j < xs(ps).len() && xs(ps)[j] == axis_max(xs(ps));
    assert(ps[d].x == bounds_max(ps).x);
    let e = choose|j: int| 0 <= j < ys(ps).len() && ys(ps)[j] == axis_max(ys(ps));
    assert(ps[e].y == bounds_max(ps).y);
    let f = choose|j: int| 0 <= j < zs(ps).len() && zs(ps)[j] == axis_max(zs(ps));
    assert(ps[f].z == bounds_max(ps).z);
}

/// Mapping the corners of the bounding box of some points gives the bounding
/// box of the mapped points: bounds and positions are mapped consistently.
pub proof fn lemma_map_coords_commutes_with_bounds(ps: Seq<Vec3>)
    ensures
        spec_map_coords(bounds_min(ps)) == bounds_min(mapped(ps)),
        spec_map_coords(bounds_max(ps)) == bounds_max(mapped(ps)),
{
    assert(xs(mapped(ps)) =~= ys(ps));
    assert(ys(mapped(ps)) =~= zs(ps));
    assert(zs(mapped(ps)) =~= xs(ps));
}

} // verus!
