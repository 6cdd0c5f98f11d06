//! Integer vector arithmetic shared by the coordinate mappings.

use vstd::prelude::*;

verus! {

/// A point or offset on the integer grid.
#[derive(Clone, Copy, Debug, PartialEq, Eq, Structural, Hash)]
pub struct IVec3 {
    pub x: i32,
    pub y: i32,
    pub z: i32,
}

/// One of the three axes of a vector.
#[derive(Clone, Copy, Debug, PartialEq, Eq, Structural, Hash)]
pub enum Vec3Element {
    X,
    Y,
    Z,
}

/// The smaller of two integers.
pub open spec fn min2(a: int, b: int) -> int {
    if a <= b {
        a
    } else {
        b
    }
}

/// The larger of two integers.
pub open spec fn max2(a: int, b: int) -> int {
    if a >= b {
        a
    } else {
        b
    }
}

/// The magnitude of an integer.
pub open spec fn magnitude(a: int) -> int {
    if a < 0 {
        -a
    } else {
        a
    }
}

/// Every component of `pos` lies in `[min, max]`.
pub open spec fn within_cubic_bounds(pos: IVec3, min: int, max: int) -> bool {
    &&& min <= pos.x <= max
    &&& min <= pos.y <= max
    &&& min <= pos.z <= max
}

/// The axis whose component has the strictly smallest magnitude; ties fall
/// through from `X` to `Y` to `Z`.
pub open spec fn min_axis(vec: IVec3) -> Vec3Element {
    let ax = magnitude(vec.x as int);
    let ay = magnitude(vec.y as int);
    let az = magnitude(vec.z as int);
    if ax < ay && ax < az {
        Vec3Element::X
    } else if ay < ax && ay < az {
        Vec3Element::Y
    } else {
        Vec3Element::Z
    }
}

impl IVec3 {
    pub fn new(x: i32, y: i32, z: i32) -> (v: IVec3)
        ensures
            v.x == x,
            v.y == y,
            v.z == z,
    {
        IVec3 { x, y, z }
    }

    /// The vector with all three components equal to `v`.
    pub fn splat(v: i32) -> (r: IVec3)
        ensures
            r.x == v,
            r.y == v,
            r.z == v,
    {
        IVec3 { x: v, y: v, z: v }
    }

    /// Whether the componentwise sum of `self` and `rhs` fits the component type.
    pub open spec fn sum_fits(self, rhs: IVec3) -> bool {
        &&& i32::MIN <= self.x + rhs.x <= i32::MAX
        &&& i32::MIN <= self.y + rhs.y <= i32::MAX
        &&& i32::MIN <= self.z + rhs.z <= i32::MAX
    }

    /// Componentwise sum of two vectors whose sum fits.
    pub fn plus(self, rhs: IVec3) -> (r: IVec3)
        requires
            self.sum_fits(rhs),
        ensures
            r.x == self.x + rhs.x,
            r.y == self.y + rhs.y,
            r.z == self.z + rhs.z,
    {
        IVec3 { x: self.x + rhs.x, y: self.y + rhs.y, z: self.z + rhs.z }
    }

    /// The smallest of the three components.
    pub fn min_element(self) -> (m: i32)
        ensures
            m == min2(self.x as int, min2(self.y as int, self.z as int)),
    {
        let yz: i32 = if self.y <= self.z { self.y } else { self.z };
        if self.x <= yz {
            self.x
        } else {
            yz
        }
    }

    /// The largest of the three components.
    pub fn max_element(self) -> (m: i32)
        ensures
            m == max2(self.x as int, max2(self.y as int, self.z as int)),
    {
        let yz: i32 = if self.y >= self.z { self.y } else { self.z };
        if self.x >= yz {
            self.x
        } else {
            yz
        }
    }
}

/// Whether every component of `pos` lies in the closed interval `[min, max]`.
pub fn is_within_cubic_bounds(pos: IVec3, min: i32, max: i32) -> (inside: bool)
    ensures
        inside == within_cubic_bounds(pos, min as int, max as int),
{
    pos.min_element() >= min && pos.max_element() <= max
}

/// Componentwise Euclidean remainder: each result component is the
/// non-negative remainder of the matching component of `vec` by `div`.
///
/// The divisor must be nonzero, and the pair of the most negative component
/// value with a divisor of `-1` is excluded, as the remainder is not
/// computable in the component type there.
pub fn euclid_rem(vec: IVec3, div: i32) -> (r: IVec3)
    requires
        div != 0,
        div == -1 ==> vec.x != i32::MIN && vec.y != i32::MIN && vec.z != i32::MIN,
    ensures
        r.x == vec.x as int % div as int,
        r.y == vec.y as int % div as int,
        r.z == vec.z as int % div as int,
        0 <= r.x < magnitude(div as int),
        0 <= r.y < magnitude(div as int),
        0 <= r.z < magnitude(div as int),
{
    proof {
        lemma_euclid_rem_range(vec.x as int, div as int);
        lemma_euclid_rem_range(vec.y as int, div as int);
        lemma_euclid_rem_range(vec.z as int, div as int);
    }
    let x = vec.x.checked_rem_euclid(div);
    let y = vec.y.checked_rem_euclid(div);
    let z = vec.z.checked_rem_euclid(div);
    IVec3 { x: x.unwrap(), y: y.unwrap(), z: z.unwrap() }
}

/// The Euclidean remainder by a nonzero divisor is non-negative and smaller
/// than the divisor's magnitude.
pub proof fn lemma_euclid_rem_range(a: int, d: int)
    requires
        d != 0,
    ensures
        0 <= a % d < magnitude(d),
{
    if d > 0 {
        vstd::arithmetic::div_mod::lemma_mod_bound(a, d);
    } else {
        assert(0 <= a % d < -d) by (nonlinear_arith)
            requires
                d < 0,
        ;
    }
}

/// The axis along which `vec` has the strictly smallest magnitude, with ties
/// resolved towards `Z`.
pub fn min_element(vec: IVec3) -> (axis: Vec3Element)
    ensures
        axis == min_axis(vec),
{
    let ax: i64 = if vec.x < 0 { -(vec.x as i64) } else { vec.x as i64 };
    let ay: i64 = if vec.y < 0 { -(vec.y as i64) } else { vec.y as i64 };
    let az: i64 = if vec.z < 0 { -(vec.z as i64) } else { vec.z as i64 };
    if ax < ay && ax < az {
        Vec3Element::X
    } else if ay < ax && ay < az {
        Vec3Element::Y
    } else {
        Vec3Element::Z
    }
}

} // verus!
