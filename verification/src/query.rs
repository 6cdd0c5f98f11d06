//! Enumeration of the chunk coordinates in a box.

use vstd::prelude::*;
use crate::math::IVec3;

verus! {

/// Whether `c` lies in the box from `begin` to `end`, both included.
pub open spec fn in_range(begin: IVec3, end: IVec3, c: IVec3) -> bool {
    &&& begin.x <= c.x <= end.x
    &&& begin.y <= c.y <= end.y
    &&& begin.z <= c.z <= end.z
}

/// Whether `a` comes before `b` when coordinates are ordered by `x`, then by
/// `y`, then by `z`.
pub open spec fn comes_before(a: IVec3, b: IVec3) -> bool {
    a.x < b.x || (a.x == b.x && (a.y < b.y || (a.y == b.y && a.z < b.z)))
}

/// The number of integers from `lo` to `hi`, both included.
pub open spec fn span(lo: int, hi: int) -> int {
    if lo <= hi {
        hi - lo + 1
    } else {
        0
    }
}

/// The number of coordinates in the box from `begin` to `end`.
pub open spec fn range_len(begin: IVec3, end: IVec3) -> int {
    span(begin.x as int, end.x as int) * span(begin.y as int, end.y as int) * span(
        begin.z as int,
        end.z as int,
    )
}

/// `coords` lists the box from `begin` to `end`: every coordinate of the box
/// and no other, in strictly ascending order by `x`, then `y`, then `z`.
pub open spec fn is_range(coords: Seq<IVec3>, begin: IVec3, end: IVec3) -> bool {
    &&& forall|c: IVec3| coords.contains(c) <==> in_range(begin, end, c)
    &&& ascending(coords)
}

/// A strictly ascending list holds no coordinate twice.
pub proof fn lemma_range_no_duplicates(coords: Seq<IVec3>, begin: IVec3, end: IVec3)
    requires
        is_range(coords, begin, end),
    ensures
        coords.no_duplicates(),
{
    assert forall|i: int, j: int| 0 <= i < coords.len() && 0 <= j < coords.len() && i != j implies coords[i]
        != coords[j] by {
        if i < j {
            assert(comes_before(coords[i], coords[j]));
        } else {
            assert(comes_before(coords[j], coords[i]));
        }
    }
}

/// Whether `coords` is in strictly ascending order.
pub open spec fn ascending(coords: Seq<IVec3>) -> bool {
    forall|i: int, j: int|
        0 <= i < j < coords.len() ==> comes_before(#[trigger] coords[i], #[trigger] coords[j])
}

/// Two strictly ascending lists with the same elements are the same list.
pub proof fn lemma_ascending_unique(a: Seq<IVec3>, b: Seq<IVec3>)
    requires
        ascending(a),
        ascending(b),
        forall|c: IVec3| a.contains(c) <==> b.contains(c),
    ensures
        a == b,
    decreases a.len(),
{
    if a.len() == 0 {
        if b.len() > 0 {
            assert(b.contains(b[0]));
        }
        assert(a =~= b);
    } else if b.len() == 0 {
        assert(a.contains(a[0]));
    } else {
        let la = a.last();
        let lb = b.last();
        assert(a.contains(la));
        assert(b.contains(lb));
        let i = choose|i: int| 0 <= i < b.len() && b[i] == la;
        let j = choose|j: int| 0 <= j < a.len() && a[j] == lb;
        if i < b.len() - 1 {
            assert(comes_before(b[i], b[b.len() - 1]));
        }
        if j < a.len() - 1 {
            assert(comes_before(a[j], a[a.len() - 1]));
        }
        assert(la == lb);
        let a0 = a.drop_last();
        let b0 = b.drop_last();
        assert forall|c: IVec3| a0.contains(c) <==> b0.contains(c) by {
            if a0.contains(c) {
                let i = choose|i: int| 0 <= i < a0.len() && a0[i] == c;
                assert(comes_before(a[i], a[a.len() - 1]));
                assert(a.contains(c));
                let j = choose|j: int| 0 <= j < b.len() && b[j] == c;
                assert(b0[j] == c);
            }
            if b0.contains(c) {
                let i = choose|i: int| 0 <= i < b0.len() && b0[i] == c;
                assert(comes_before(b[i], b[b.len() - 1]));
                assert(b.contains(c));
                let j = choose|j: int| 0 <= j < a.len() && a[j] == c;
                assert(a0[j] == c);
            }
        }
        assert(ascending(a0)) by {
            assert forall|i: int, j: int| 0 <= i < j < a0.len() implies comes_before(
                #[trigger] a0[i],
                #[trigger] a0[j],
            ) by {
                assert(comes_before(a[i], a[j]));
            }
        }
        assert(ascending(b0)) by {
            assert forall|i: int, j: int| 0 <= i < j < b0.len() implies comes_before(
                #[trigger] b0[i],
                #[trigger] b0[j],
            ) by {
                assert(comes_before(b[i], b[j]));
            }
        }
        lemma_ascending_unique(a0, b0);
        assert(a =~= a0.push(la));
        assert(b =~= b0.push(lb));
    }
}

/// The box from `begin` to `end` has one listing only.
pub proof fn lemma_range_unique(a: Seq<IVec3>, b: Seq<IVec3>, begin: IVec3, end: IVec3)
    requires
        is_range(a, begin, end),
        is_range(b, begin, end),
    ensures
        a == b,
{
    lemma_ascending_unique(a, b);
}

/// The listing of the box from `begin` to `end`.
pub open spec fn range_of(begin: IVec3, end: IVec3) -> Seq<IVec3> {
    choose|coords: Seq<IVec3>| is_range(coords, begin, end)
}

/// The coordinates of the box from `begin` to `end`, both included, by
/// ascending `x`, then `y`, then `z`. The box is empty when `end` lies below
/// `begin` on some axis.
pub fn range(begin: IVec3, end: IVec3) -> (coords: Vec<IVec3>)
    requires
        range_len(begin, end) <= usize::MAX,
    ensures
        is_range(coords@, begin, end),
        coords@ == range_of(begin, end),
        coords@.len() == range_len(begin, end),
{
    let coords = list_range(begin, end);
    proof {
        lemma_range_unique(coords@, range_of(begin, end), begin, end);
    }
    coords
}

fn list_range(begin: IVec3, end: IVec3) -> (coords: Vec<IVec3>)
    requires
        range_len(begin, end) <= usize::MAX,
    ensures
        is_range(coords@, begin, end),
        coords@.len() == range_len(begin, end),
{
    let mut coords: Vec<IVec3> = Vec::new();
    let ghost sx = span(begin.x as int, end.x as int);
    let ghost sy = span(begin.y as int, end.y as int);
    let ghost sz = span(begin.z as int, end.z as int);
    if begin.x > end.x || begin.y > end.y || begin.z > end.z {
        proof {
            assert(range_len(begin, end) == 0) by (nonlinear_arith)
                requires
                    sx == 0 || sy == 0 || sz == 0,
                    range_len(begin, end) == sx * sy * sz,
            ;
            assert forall|c: IVec3| coords@.contains(c) <==> in_range(begin, end, c) by {}
        }
        return coords;
    }
    let mut x: i64 = begin.x as i64;
    proof {
        assert((x - begin.x) * sy * sz == 0) by (nonlinear_arith)
            requires
                x - begin.x == 0,
        ;
    }
    while x <= end.x as i64
        invariant
            begin.x <= end.x,
            begin.y <= end.y,
            begin.z <= end.z,
            begin.x <= x <= end.x + 1,
            sy == end.y - begin.y + 1,
            sz == end.z - begin.z + 1,
            ascending(coords@),
            forall|c: IVec3| coords@.contains(c) <==> in_range(begin, end, c) && c.x < x,
            coords@.len() == (x - begin.x) * sy * sz,
            range_len(begin, end) == (end.x - begin.x + 1) * sy * sz,
            range_len(begin, end) <= usize::MAX,
        decreases end.x + 1 - x,
    {
        let mut y: i64 = begin.y as i64;
        proof {
            assert((y - begin.y) * sz == 0) by (nonlinear_arith)
                requires
                    y - begin.y == 0,
            ;
        }
        while y <= end.y as i64
            invariant
                begin.x <= end.x,
                begin.y <= end.y,
                begin.z <= end.z,
                begin.x <= x <= end.x,
                begin.y <= y <= end.y + 1,
                sy == end.y - begin.y + 1,
                sz == end.z - begin.z + 1,
                ascending(coords@),
                forall|c: IVec3|
                    coords@.contains(c) <==> in_range(begin, end, c) && (c.x < x || (c.x == x
                        && c.y < y)),
                coords@.len() == (x - begin.x) * sy * sz + (y - begin.y) * sz,
                range_len(begin, end) == (end.x - begin.x + 1) * sy * sz,
                range_len(begin, end) <= usize::MAX,
            decreases end.y + 1 - y,
        {
            let mut z: i64 = begin.z as i64;
            while z <= end.z as i64
                invariant
                    begin.x <= end.x,
                    begin.y <= end.y,
                    begin.z <= end.z,
                    begin.x <= x <= end.x,
                    begin.y <= y <= end.y,
                    begin.z <= z <= end.z + 1,
                    sy == end.y - begin.y + 1,
                    sz == end.z - begin.z + 1,
                    ascending(coords@),
                    forall|c: IVec3|
                        coords@.contains(c) <==> in_range(begin, end, c) && (c.x < x || (c.x == x
                            && (c.y < y || (c.y == y && c.z < z)))),
                    coords@.len() == (x - begin.x) * sy * sz + (y - begin.y) * sz + (z - begin.z),
                    range_len(begin, end) == (end.x - begin.x + 1) * sy * sz,
                    range_len(begin, end) <= usize::MAX,
                decreases end.z + 1 - z,
            {
                let p = IVec3 { x: x as i32, y: y as i32, z: z as i32 };
                let ghost earlier = coords@;
                proof {
                    lemma_count_below(
                        x - begin.x,
                        y - begin.y,
                        z - begin.z,
                        end.x - begin.x + 1,
                        sy,
                        sz,
                    );
                }
                coords.push(p);
                proof {
                    assert forall|i: int, j: int| 0 <= i < j < coords@.len() implies comes_before(
                        #[trigger] coords@[i],
                        #[trigger] coords@[j],
                    ) by {
                        if j < earlier.len() {
                            assert(comes_before(earlier[i], earlier[j]));
                        } else {
                            assert(earlier.contains(earlier[i]));
                        }
                    }
                    assert forall|c: IVec3|
                        coords@.contains(c) <==> in_range(begin, end, c) && (c.x < x || (c.x == x
                            && (c.y < y || (c.y == y && c.z < z + 1)))) by {
                        if coords@.contains(c) {
                            let i = choose|i: int| 0 <= i < coords@.len() && coords@[i] == c;
                            if i < earlier.len() {
                                assert(earlier.contains(earlier[i]));
                            }
                        }
                        if earlier.contains(c) {
                            let i = choose|i: int| 0 <= i < earlier.len() && earlier[i] == c;
                            assert(coords@[i] == c);
                        }
                        if c == p {
                            assert(coords@[earlier.len() as int] == c);
                        }
                    }
                }
                z += 1;
            }
            y += 1;
            proof {
                assert((x - begin.x) * sy * sz + (y - 1 - begin.y) * sz + sz == (x - begin.x) * sy
                    * sz + (y - begin.y) * sz) by (nonlinear_arith);
            }
        }
        x += 1;
        proof {
            assert((x - 1 - begin.x) * sy * sz + sy * sz == (x - begin.x) * sy * sz)
                by (nonlinear_arith);
        }
    }
    coords
}

/// A position within a box of `sx` by `sy` by `sz` cells counts fewer cells
/// before it than the box has.
proof fn lemma_count_below(a: int, b: int, c: int, sx: int, sy: int, sz: int)
    requires
        0 <= a < sx,
        0 <= b < sy,
        0 <= c < sz,
    ensures
        a * sy * sz + b * sz + c < sx * sy * sz,
{
    assert(a * sy * sz + b * sz + c < sx * sy * sz) by (nonlinear_arith)
        requires
            0 <= a <= sx - 1,
            0 <= b <= sy - 1,
            0 <= c <= sz - 1,
    {
        assert(a * sy * sz <= (sx - 1) * sy * sz);
        assert(b * sz <= (sy - 1) * sz);
    }
}

/// A box that spans at most `side + 1` coordinates on every axis has at most
/// that number cubed.
pub proof fn lemma_small_range(begin: IVec3, end: IVec3, side: int)
    requires
        0 <= side,
        end.x - begin.x <= side,
        end.y - begin.y <= side,
        end.z - begin.z <= side,
    ensures
        range_len(begin, end) <= (side + 1) * (side + 1) * (side + 1),
{
    let sx = span(begin.x as int, end.x as int);
    let sy = span(begin.y as int, end.y as int);
    let sz = span(begin.z as int, end.z as int);
    let s = side + 1;
    assert(sx * sy * sz <= s * s * s) by (nonlinear_arith)
        requires
            0 <= sx <= s,
            0 <= sy <= s,
            0 <= sz <= s,
    {
        assert(sx * sy <= s * s);
        assert(sx * sy * sz <= s * s * sz);
    }
}

} // verus!
