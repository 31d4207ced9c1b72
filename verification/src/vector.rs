//! Points and directions of the arena: `x` across, `y` up, `z` along the lanes.

use vstd::prelude::*;

use crate::scalar::{one, zero, Scalar};

verus! {

/// A point or a direction.
#[derive(Clone, Copy, Debug)]
pub struct Vec3<S> {
    pub x: S,
    pub y: S,
    pub z: S,
}

impl<S: Scalar> Vec3<S> {
    /// A point by its coordinates.
    #[verifier::allow_in_spec]
    pub fn new(x: S, y: S, z: S) -> Self
        returns
            (Vec3 { x, y, z }),
    {
        Vec3 { x, y, z }
    }

    /// The origin.
    #[verifier::allow_in_spec]
    pub fn origin() -> Self
        returns
            (Vec3 { x: zero::<S>(), y: zero::<S>(), z: zero::<S>() }),
    {
        Vec3 { x: zero(), y: zero(), z: zero() }
    }

    /// The sum.
    #[verifier::allow_in_spec]
    pub fn plus(self, o: Self) -> Self
        returns
            (Vec3 { x: self.x.plus(o.x), y: self.y.plus(o.y), z: self.z.plus(o.z) }),
    {
        Vec3 { x: self.x.plus(o.x), y: self.y.plus(o.y), z: self.z.plus(o.z) }
    }

    /// The difference.
    #[verifier::allow_in_spec]
    pub fn minus(self, o: Self) -> Self
        returns
            (Vec3 { x: self.x.minus(o.x), y: self.y.minus(o.y), z: self.z.minus(o.z) }),
    {
        Vec3 { x: self.x.minus(o.x), y: self.y.minus(o.y), z: self.z.minus(o.z) }
    }

    /// The same direction, longer by a factor.
    #[verifier::allow_in_spec]
    pub fn times(self, k: S) -> Self
        returns
            (Vec3 { x: self.x.times(k), y: self.y.times(k), z: self.z.times(k) }),
    {
        Vec3 { x: self.x.times(k), y: self.y.times(k), z: self.z.times(k) }
    }

    /// The same direction, shorter by a divisor.
    #[verifier::allow_in_spec]
    pub fn over(self, k: S) -> Self
        returns
            (Vec3 { x: self.x.over(k), y: self.y.over(k), z: self.z.over(k) }),
    {
        Vec3 { x: self.x.over(k), y: self.y.over(k), z: self.z.over(k) }
    }

    /// The projection on the ground.
    #[verifier::allow_in_spec]
    pub fn flat(self) -> Self
        returns
            (Vec3 { x: self.x, y: zero::<S>(), z: self.z }),
    {
        Vec3 { x: self.x, y: zero(), z: self.z }
    }

    /// The same point, `h` higher.
    #[verifier::allow_in_spec]
    pub fn raised(self, h: S) -> Self
        returns
            (Vec3 { x: self.x, y: self.y.plus(h), z: self.z }),
    {
        Vec3 { x: self.x, y: self.y.plus(h), z: self.z }
    }

    /// The square of the length.
    #[verifier::allow_in_spec]
    pub fn length_squared(self) -> S
        returns
            self.x.times(self.x).plus(self.y.times(self.y)).plus(self.z.times(self.z)),
    {
        self.x.times(self.x).plus(self.y.times(self.y)).plus(self.z.times(self.z))
    }

    /// The length.
    #[verifier::allow_in_spec]
    pub fn length(self) -> S
        returns
            self.length_squared().root(),
    {
        self.length_squared().root()
    }

    /// The direction of `self`, scaled to length one.
    #[verifier::allow_in_spec]
    pub fn normalized(self) -> Self
        returns
            self.times(one::<S>().over(self.length())),
    {
        self.times(one::<S>().over(self.length()))
    }

    /// The square of the distance.
    #[verifier::allow_in_spec]
    pub fn distance_squared(self, o: Self) -> S
        returns
            self.minus(o).length_squared(),
    {
        self.minus(o).length_squared()
    }

    /// The distance on the ground.
    #[verifier::allow_in_spec]
    pub fn ground_distance(self, o: Self) -> S
        returns
            self.minus(o).flat().length(),
    {
        self.minus(o).flat().length()
    }

    /// Equality of each coordinate.
    #[verifier::allow_in_spec]
    pub fn same(self, o: Self) -> bool
        returns
            (self.x.same(o.x) && self.y.same(o.y) && self.z.same(o.z)),
    {
        self.x.same(o.x) && self.y.same(o.y) && self.z.same(o.z)
    }
}

} // verus!
