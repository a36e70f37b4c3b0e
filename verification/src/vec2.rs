//! Two-component coordinate values and axis-aligned regions.
//!
//! `Vec2` is the one value type used for every size (width, height) and every
//! position (x, y) in the crate. All arithmetic is componentwise and is built
//! on the single combining primitive `join`. Arithmetic on `usize` pairs is
//! checked statically: each operation requires that its result fits, so no
//! verified function here can overflow or panic at run time.

use vstd::prelude::*;

verus! {

/// A pair of components of one copyable type: a size or a position.
#[derive(Debug, Clone, Copy, PartialEq, Eq, Structural)]
pub struct Vec2<T: Copy> {
    pub x: T,
    pub y: T,
}

impl<T: Copy> Vec2<T> {
    /// Builds a pair from its two components; any values are accepted.
    pub fn new(x: T, y: T) -> (r: Self)
        ensures
            r.x == x,
            r.y == y,
    {
        Vec2 { x, y }
    }

    /// Builds a pair with both components equal to `v`.
    pub fn splat(v: T) -> (r: Self)
        ensures
            r.x == v,
            r.y == v,
    {
        Vec2 { x: v, y: v }
    }

    /// A copy of `self` with the first component replaced.
    pub fn with_x(self, x: T) -> (r: Vec2<T>)
        ensures
            r.x == x,
            r.y == self.y,
    {
        Vec2 { x, y: self.y }
    }

    /// A copy of `self` with the second component replaced.
    pub fn with_y(self, y: T) -> (r: Vec2<T>)
        ensures
            r.x == self.x,
            r.y == y,
    {
        Vec2 { x: self.x, y }
    }

    /// Pairs up the components of two pairs.
    pub fn zip<U: Copy>(self, other: Vec2<U>) -> (r: Vec2<(T, U)>)
        ensures
            r.x == (self.x, other.x),
            r.y == (self.y, other.y),
    {
        Vec2 { x: (self.x, other.x), y: (self.y, other.y) }
    }

    /// Applies `f` to both components.
    pub fn map<U: Copy, F: Fn(T) -> U>(self, f: F) -> (r: Vec2<U>)
        requires
            call_requires(f, (self.x,)),
            call_requires(f, (self.y,)),
        ensures
            call_ensures(f, (self.x,), r.x),
            call_ensures(f, (self.y,), r.y),
    {
        Vec2 { x: f(self.x), y: f(self.y) }
    }

    /// Applies `f` to the first component only.
    pub fn map_x<F: FnOnce(T) -> T>(self, f: F) -> (r: Self)
        requires
            call_requires(f, (self.x,)),
        ensures
            call_ensures(f, (self.x,), r.x),
            r.y == self.y,
    {
        Vec2 { x: f(self.x), y: self.y }
    }

    /// Applies `f` to the second component only.
    pub fn map_y<F: FnOnce(T) -> T>(self, f: F) -> (r: Self)
        requires
            call_requires(f, (self.y,)),
        ensures
            call_ensures(f, (self.y,), r.y),
            r.x == self.x,
    {
        Vec2 { x: self.x, y: f(self.y) }
    }

    /// Combines two pairs componentwise with a binary function. This is the
    /// single primitive underlying all the componentwise arithmetic below.
    pub fn join<U: Copy, O: Copy, F: Fn(T, U) -> O>(self, other: Vec2<U>, f: F) -> (r: Vec2<O>)
        requires
            call_requires(f, (self.x, other.x)),
            call_requires(f, (self.y, other.y)),
        ensures
            call_ensures(f, (self.x, other.x), r.x),
            call_ensures(f, (self.y, other.y), r.y),
    {
        let z = self.zip(other);
        Vec2 { x: f(z.x.0, z.x.1), y: f(z.y.0, z.y.1) }
    }
}

impl<T: Copy> From<(T, T)> for Vec2<T> {
    /// A pair from a 2-tuple: the first element becomes `x`, the second `y`.
    fn from(t: (T, T)) -> (r: Self) {
        Vec2 { x: t.0, y: t.1 }
    }
}

impl<T: Copy> vstd::std_specs::convert::FromSpecImpl<(T, T)> for Vec2<T> {
    open spec fn obeys_from_spec() -> bool {
        true
    }

    open spec fn from_spec(t: (T, T)) -> Self {
        Vec2 { x: t.0, y: t.1 }
    }
}

/// Componentwise sum; exact when neither component overflows.
pub open spec fn spec_add(a: Vec2<usize>, b: Vec2<usize>) -> Vec2<usize> {
    Vec2 { x: (a.x + b.x) as usize, y: (a.y + b.y) as usize }
}

/// Componentwise difference; exact when neither component underflows.
pub open spec fn spec_sub(a: Vec2<usize>, b: Vec2<usize>) -> Vec2<usize> {
    Vec2 { x: (a.x - b.x) as usize, y: (a.y - b.y) as usize }
}

/// Componentwise product; exact when neither component overflows.
pub open spec fn spec_mul(a: Vec2<usize>, b: Vec2<usize>) -> Vec2<usize> {
    Vec2 { x: (a.x * b.x) as usize, y: (a.y * b.y) as usize }
}

/// Componentwise quotient (integer division).
pub open spec fn spec_div(a: Vec2<usize>, b: Vec2<usize>) -> Vec2<usize> {
    Vec2 { x: (a.x / b.x) as usize, y: (a.y / b.y) as usize }
}

impl Vec2<usize> {
    /// Componentwise addition. The caller must rule out overflow.
    pub fn add(self, rhs: Vec2<usize>) -> (r: Vec2<usize>)
        requires
            self.x + rhs.x <= usize::MAX,
            self.y + rhs.y <= usize::MAX,
        ensures
            r == spec_add(self, rhs),
    {
        let f = |a: usize, b: usize| -> (o: usize)
            requires
                a + b <= usize::MAX,
            ensures
                o == a + b,
            { a + b };
        self.join(rhs, f)
    }

    /// Componentwise subtraction. The caller must rule out underflow.
    pub fn sub(self, rhs: Vec2<usize>) -> (r: Vec2<usize>)
        requires
            rhs.x <= self.x,
            rhs.y <= self.y,
        ensures
            r == spec_sub(self, rhs),
    {
        let f = |a: usize, b: usize| -> (o: usize)
            requires
                b <= a,
            ensures
                o == a - b,
            { a - b };
        self.join(rhs, f)
    }

    /// Componentwise multiplication. The caller must rule out overflow.
    pub fn mul(self, rhs: Vec2<usize>) -> (r: Vec2<usize>)
        requires
            self.x * rhs.x <= usize::MAX,
            self.y * rhs.y <= usize::MAX,
        ensures
            r == spec_mul(self, rhs),
    {
        let f = |a: usize, b: usize| -> (o: usize)
            requires
                a * b <= usize::MAX,
            ensures
                o == a * b,
            { a * b };
        self.join(rhs, f)
    }

    /// Componentwise integer division. The caller must guarantee non-zero
    /// divisors; a zero component would be a division by zero.
    pub fn div(self, rhs: Vec2<usize>) -> (r: Vec2<usize>)
        requires
            rhs.x != 0,
            rhs.y != 0,
        ensures
            r == spec_div(self, rhs),
    {
        let f = |a: usize, b: usize| -> (o: usize)
            requires
                b != 0,
            ensures
                o == a / b,
            { a / b };
        self.join(rhs, f)
    }

    /// In-place componentwise addition.
    pub fn add_assign(&mut self, rhs: Vec2<usize>)
        requires
            old(self).x + rhs.x <= usize::MAX,
            old(self).y + rhs.y <= usize::MAX,
        ensures
            *final(self) == spec_add(*old(self), rhs),
    {
        self.x = self.x + rhs.x;
        self.y = self.y + rhs.y;
    }

    /// In-place componentwise subtraction.
    pub fn sub_assign(&mut self, rhs: Vec2<usize>)
        requires
            rhs.x <= old(self).x,
            rhs.y <= old(self).y,
        ensures
            *final(self) == spec_sub(*old(self), rhs),
    {
        self.x = self.x - rhs.x;
        self.y = self.y - rhs.y;
    }

    /// In-place componentwise multiplication.
    pub fn mul_assign(&mut self, rhs: Vec2<usize>)
        requires
            old(self).x * rhs.x <= usize::MAX,
            old(self).y * rhs.y <= usize::MAX,
        ensures
            *final(self) == spec_mul(*old(self), rhs),
    {
        self.x = self.x * rhs.x;
        self.y = self.y * rhs.y;
    }

    /// In-place componentwise division; divisor components must be non-zero.
    pub fn div_assign(&mut self, rhs: Vec2<usize>)
        requires
            rhs.x != 0,
            rhs.y != 0,
        ensures
            *final(self) == spec_div(*old(self), rhs),
    {
        self.x = self.x / rhs.x;
        self.y = self.y / rhs.y;
    }

    /// The product of the components, used to validate non-zero tile sizes.
    pub fn area(self) -> (r: usize)
        requires
            self.x * self.y <= usize::MAX,
        ensures
            r == self.x * self.y,
    {
        self.x * self.y
    }

    /// Flattens a 2D coordinate into a row-major index for a grid of the
    /// given width. The caller must rule out overflow; within a grid whose
    /// area fits in `usize` the index always does.
    pub fn index_row_major(self, width: usize) -> (r: usize)
        requires
            self.y * width + self.x <= usize::MAX,
        ensures
            r == self.y * width + self.x,
    {
        self.y * width + self.x
    }
}

impl Vec2<u16> {
    /// A pair pointing along the first axis only.
    #[must_use]
    pub fn x(x: u16) -> (r: Self)
        ensures
            r.x == x,
            r.y == 0,
    {
        Vec2 { x, y: 0 }
    }

    /// A pair pointing along the second axis only.
    #[must_use]
    pub fn y(y: u16) -> (r: Self)
        ensures
            r.x == 0,
            r.y == y,
    {
        Vec2 { x: 0, y }
    }
}

/// An axis-aligned region: a position and a size of the same element type.
#[derive(Debug, Clone, Copy, PartialEq, Eq, Structural)]
pub struct Rect<T: Copy> {
    pub pos: Vec2<T>,
    pub size: Vec2<T>,
}

/// Insetting a region by `factor` on every side: the position moves forward
/// by `factor` and the size loses `factor` twice on each axis.
pub open spec fn spec_shrink_centered(r: Rect<usize>, factor: Vec2<usize>) -> Rect<usize> {
    Rect { pos: spec_add(r.pos, factor), size: spec_sub(spec_sub(r.size, factor), factor) }
}

/// The inverse inset: the position moves back by `factor` and the size gains
/// `factor` twice on each axis. This is `spec_shrink_centered` with the
/// negated factor, written as growth because the components are unsigned.
pub open spec fn spec_grow_centered(r: Rect<usize>, factor: Vec2<usize>) -> Rect<usize> {
    Rect { pos: spec_sub(r.pos, factor), size: spec_add(spec_add(r.size, factor), factor) }
}

impl Rect<usize> {
    /// Insets the region by `factor` on every side, used to sample a tile's
    /// interior while excluding border pixels. The factor may not exceed half
    /// the size on either axis: a larger factor would make a component
    /// negative, which `usize` cannot hold.
    pub fn shrink_centered(self, factor: Vec2<usize>) -> (r: Rect<usize>)
        requires
            self.pos.x + factor.x <= usize::MAX,
            self.pos.y + factor.y <= usize::MAX,
            factor.x + factor.x <= self.size.x,
            factor.y + factor.y <= self.size.y,
        ensures
            r == spec_shrink_centered(self, factor),
    {
        let mut pos = self.pos;
        let mut size = self.size;
        pos.add_assign(factor);
        size.sub_assign(factor);
        size.sub_assign(factor);
        Rect { pos, size }
    }
}

/// Shrinking a region and then applying the inverse (growing by the same
/// factor) restores the original region; in particular a zero factor leaves
/// the region unchanged.
pub proof fn lemma_shrink_centered_inverse(r: Rect<usize>, factor: Vec2<usize>)
    requires
        r.pos.x + factor.x <= usize::MAX,
        r.pos.y + factor.y <= usize::MAX,
        factor.x + factor.x <= r.size.x,
        factor.y + factor.y <= r.size.y,
    ensures
        spec_grow_centered(spec_shrink_centered(r, factor), factor) == r,
        spec_shrink_centered(r, Vec2 { x: 0usize, y: 0usize }) == r,
{
}

/// Adding a pair and then subtracting it restores the original pair.
pub proof fn lemma_add_sub_cancel(a: Vec2<usize>, b: Vec2<usize>)
    requires
        a.x + b.x <= usize::MAX,
        a.y + b.y <= usize::MAX,
    ensures
        spec_sub(spec_add(a, b), b) == a,
{
}

/// Componentwise addition is commutative.
pub proof fn lemma_add_comm(a: Vec2<usize>, b: Vec2<usize>)
    ensures
        spec_add(a, b) == spec_add(b, a),
{
}

/// Componentwise multiplication is commutative.
pub proof fn lemma_mul_comm(a: Vec2<usize>, b: Vec2<usize>)
    ensures
        spec_mul(a, b) == spec_mul(b, a),
{
}

/// The all-ones pair is the unit of componentwise multiplication.
pub proof fn lemma_mul_splat_one(a: Vec2<usize>)
    ensures
        spec_mul(a, Vec2 { x: 1usize, y: 1usize }) == a,
{
}

} // verus!
