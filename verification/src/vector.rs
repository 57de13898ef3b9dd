//! Two-dimensional vectors of fixed-point scalars.

use crate::fixed::{
    difference, hypot, hypot_up, lemma_rescaled_is_short, lemma_root_below, lemma_root_up,
    lemma_toward_zero, length,
    length_up, minus, negate, negated, over, plus, product, quotient, root_up, saturate,
    saturated, sum, times, toward_zero, Fixed, ONE,
};
use vstd::prelude::*;

verus! {

/// A point or a displacement in the plane, in world units.
#[derive(Clone, Copy, PartialEq, Eq, Structural, Debug)]
pub struct Vector {
    pub x: Fixed,
    pub y: Fixed,
}

impl Vector {
    /// The vector `(x, y)`.
    pub fn new(x: Fixed, y: Fixed) -> (v: Vector)
        ensures
            v == (Vector { x, y }),
    {
        Vector { x, y }
    }

    /// The zero vector.
    pub open spec fn origin() -> Vector {
        Vector { x: 0, y: 0 }
    }

    /// The zero vector.
    pub fn zero() -> (v: Vector)
        ensures
            v == Vector::origin(),
    {
        Vector { x: 0, y: 0 }
    }

    /// Component-wise saturating sum.
    pub open spec fn plus(self, other: Vector) -> Vector {
        Vector { x: sum(self.x, other.x), y: sum(self.y, other.y) }
    }

    /// Component-wise saturating difference.
    pub open spec fn minus(self, other: Vector) -> Vector {
        Vector { x: difference(self.x, other.x), y: difference(self.y, other.y) }
    }

    /// Each component multiplied by the scalar `factor`.
    pub open spec fn scaled(self, factor: Fixed) -> Vector {
        Vector { x: product(self.x, factor), y: product(self.y, factor) }
    }

    /// The opposite vector.
    pub open spec fn reversed(self) -> Vector {
        Vector { x: negated(self.x), y: negated(self.y) }
    }

    /// The vector turned a quarter turn counter-clockwise.
    pub open spec fn turned(self) -> Vector {
        Vector { x: negated(self.y), y: self.x }
    }

    /// The Euclidean length, rounded down.
    pub open spec fn norm(self) -> Fixed {
        hypot(self.x as int, self.y as int)
    }

    /// The Euclidean distance to `other`, rounded down.
    pub open spec fn separation(self, other: Vector) -> Fixed {
        hypot(self.x - other.x, self.y - other.y)
    }

    /// The dot product in units, rounded toward zero.
    pub open spec fn inner(self, other: Vector) -> Fixed {
        saturated(toward_zero(self.x * other.x + self.y * other.y, ONE as int))
    }

    /// The Euclidean length, rounded up.
    pub open spec fn norm_up(self) -> Fixed {
        hypot_up(self.x as int, self.y as int)
    }

    /// The vector of length one in the same direction, or zero for the zero
    /// vector. Each component is rounded toward zero, so that the result is
    /// never longer than one.
    pub open spec fn direction(self) -> Vector {
        if self.norm_up() == 0 {
            Vector::origin()
        } else {
            Vector { x: quotient(self.x, self.norm_up()), y: quotient(self.y, self.norm_up()) }
        }
    }

    /// Adds two vectors.
    pub fn add(self, other: Vector) -> (v: Vector)
        ensures
            v == self.plus(other),
    {
        Vector { x: plus(self.x, other.x), y: plus(self.y, other.y) }
    }

    /// Subtracts `other` from this vector.
    pub fn sub(self, other: Vector) -> (v: Vector)
        ensures
            v == self.minus(other),
    {
        Vector { x: minus(self.x, other.x), y: minus(self.y, other.y) }
    }

    /// Multiplies both components by `factor`.
    pub fn scale(self, factor: Fixed) -> (v: Vector)
        ensures
            v == self.scaled(factor),
    {
        Vector { x: times(self.x, factor), y: times(self.y, factor) }
    }

    /// The opposite vector.
    pub fn neg(self) -> (v: Vector)
        ensures
            v == self.reversed(),
    {
        Vector { x: negate(self.x), y: negate(self.y) }
    }

    /// The vector turned a quarter turn counter-clockwise.
    pub fn perp(self) -> (v: Vector)
        ensures
            v == self.turned(),
    {
        Vector { x: negate(self.y), y: self.x }
    }

    /// The Euclidean length.
    pub fn length(self) -> (r: Fixed)
        ensures
            r == self.norm(),
            r >= 0,
    {
        length(self.x as i128, self.y as i128)
    }

    /// The Euclidean distance to `other`.
    pub fn distance(self, other: Vector) -> (r: Fixed)
        ensures
            r == self.separation(other),
            r >= 0,
    {
        length(self.x as i128 - other.x as i128, self.y as i128 - other.y as i128)
    }

    /// The dot product with `other`.
    pub fn dot(self, other: Vector) -> (r: Fixed)
        ensures
            r == self.inner(other),
    {
        assert(-0x4000_0000_0000_0000_0000_0000_0000_0000 <= self.x * other.x
            <= 0x4000_0000_0000_0000_0000_0000_0000_0000) by (nonlinear_arith)
            requires
                -0x8000_0000_0000_0000 <= self.x <= 0x7fff_ffff_ffff_ffff,
                -0x8000_0000_0000_0000 <= other.x <= 0x7fff_ffff_ffff_ffff,
        ;
        assert(-0x4000_0000_0000_0000_0000_0000_0000_0000 <= self.y * other.y
            <= 0x4000_0000_0000_0000_0000_0000_0000_0000) by (nonlinear_arith)
            requires
                -0x8000_0000_0000_0000 <= self.y <= 0x7fff_ffff_ffff_ffff,
                -0x8000_0000_0000_0000 <= other.y <= 0x7fff_ffff_ffff_ffff,
        ;
        let first: i128 = self.x as i128 * other.x as i128;
        let second: i128 = self.y as i128 * other.y as i128;
        match first.checked_add(second) {
            Some(wide) => {
                if wide >= 0 {
                    saturate(wide / 1_000_000)
                } else if wide == i128::MIN {
                    i64::MIN
                } else {
                    saturate(-((-wide) / 1_000_000))
                }
            },
            None => i64::MAX,
        }
    }

    /// The unit vector in this direction; the zero vector has none and gives zero.
    pub fn normalize_or_zero(self) -> (v: Vector)
        ensures
            v == self.direction(),
    {
        let len = length_up(self.x as i128, self.y as i128);
        if len == 0 {
            Vector::zero()
        } else {
            Vector { x: over(self.x, len), y: over(self.y, len) }
        }
    }
}

/// The largest size of a component for which lengths are exact.
pub const EXACT_RANGE: Fixed = 0x4000_0000_0000_0000;

/// Whether the real length of `v` is at most `length`.
pub open spec fn no_longer_than(v: Vector, length: Fixed) -> bool {
    v.x * v.x + v.y * v.y <= length * length
}

/// The components of a vector that is no longer than `k` are no larger than `k` in size.
proof fn lemma_within_square(x: int, y: int, k: int)
    requires
        x * x + y * y <= k * k,
        k >= 0,
    ensures
        -k <= x <= k,
        -k <= y <= k,
{
    assert(y * y >= 0 && x * x >= 0) by (nonlinear_arith);
    assert(-k <= x <= k) by (nonlinear_arith)
        requires
            x * x <= k * k,
            k >= 0,
    ;
    assert(-k <= y <= k) by (nonlinear_arith)
        requires
            y * y <= k * k,
            k >= 0,
    ;
}

/// The direction of a vector is no longer than one.
pub proof fn lemma_direction_is_short(v: Vector)
    requires
        -EXACT_RANGE <= v.x <= EXACT_RANGE,
        -EXACT_RANGE <= v.y <= EXACT_RANGE,
    ensures
        no_longer_than(v.direction(), ONE),
{
    let x = v.x as int;
    let y = v.y as int;
    let n = (x * x + y * y) as nat;
    assert(x * x <= 0x4000_0000_0000_0000 * 0x4000_0000_0000_0000 && 0 <= x * x)
        by (nonlinear_arith)
        requires
            -0x4000_0000_0000_0000 <= x <= 0x4000_0000_0000_0000,
    ;
    assert(y * y <= 0x4000_0000_0000_0000 * 0x4000_0000_0000_0000 && 0 <= y * y)
        by (nonlinear_arith)
        requires
            -0x4000_0000_0000_0000 <= y <= 0x4000_0000_0000_0000,
    ;
    let cap: nat = 0x7fff_ffff_ffff_fffe;
    assert(cap * cap >= 2 * (0x4000_0000_0000_0000 * 0x4000_0000_0000_0000)) by (nonlinear_arith)
        requires
            cap == 0x7fff_ffff_ffff_fffe,
    ;
    lemma_root_below(n, cap);
    lemma_root_up(n);
    let len = root_up(n) as int;
    assert(v.norm_up() == len);
    if len != 0 {
        let qx = toward_zero(x * ONE, len);
        let qy = toward_zero(y * ONE, len);
        lemma_toward_zero(x * ONE, len);
        lemma_toward_zero(y * ONE, len);
        lemma_rescaled_is_short(qx, qy, len, x, y, ONE as int);
        lemma_within_square(qx, qy, ONE as int);
    }
}

/// A vector that is no longer than one, scaled by a length, is no longer than that length.
pub proof fn lemma_scaled_is_short(unit: Vector, length: Fixed)
    requires
        no_longer_than(unit, ONE),
        length >= 0,
    ensures
        no_longer_than(unit.scaled(length), length),
{
    let x = unit.x as int;
    let y = unit.y as int;
    let d = length as int;
    let qx = toward_zero(x * d, ONE as int);
    let qy = toward_zero(y * d, ONE as int);
    lemma_toward_zero(x * d, ONE as int);
    lemma_toward_zero(y * d, ONE as int);
    lemma_rescaled_is_short(qx, qy, ONE as int, x, y, d);
    lemma_within_square(qx, qy, d);
}

/// A step that is no longer than a length leads no farther than that length away.
pub proof fn lemma_step_is_short(from: Vector, step: Vector, length: Fixed)
    requires
        no_longer_than(step, length),
        length >= 0,
    ensures
        from.separation(from.plus(step)) <= length,
{
    let to = from.plus(step);
    let dx = from.x - to.x;
    let dy = from.y - to.y;
    let sx = step.x as int;
    let sy = step.y as int;
    assert(dx * dx <= sx * sx) by (nonlinear_arith)
        requires
            (0 <= dx <= -sx) || (-sx <= dx <= 0),
    ;
    assert(dy * dy <= sy * sy) by (nonlinear_arith)
        requires
            (0 <= dy <= -sy) || (-sy <= dy <= 0),
    ;
    assert(dx * dx >= 0 && dy * dy >= 0) by (nonlinear_arith);
    lemma_root_below((dx * dx + dy * dy) as nat, length as nat);
}

} // verus!
