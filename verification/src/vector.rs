use vstd::prelude::*;

verus! {

/// An integer 2D vector: the coordinate and displacement type of the
/// simulation. It is a pure value type; addition wraps at the `i32`
/// boundary, so every operation is total.
#[derive(Clone, Copy, PartialEq, Eq, Structural, Debug)]
pub struct Vector2 {
    pub x: i32,
    pub y: i32,
}

impl Vector2 {
    pub fn new(x: i32, y: i32) -> (v: Vector2)
        ensures
            v == (Vector2 { x, y }),
    {
        Vector2 { x, y }
    }

    /// The componentwise sum, wrapping at the `i32` boundary.
    pub open spec fn spec_add(self, other: Vector2) -> Vector2 {
        Vector2 { x: self.x.wrapping_add(other.x), y: self.y.wrapping_add(other.y) }
    }

    pub fn add(self, other: Vector2) -> (r: Vector2)
        ensures
            r == self.spec_add(other),
    {
        Vector2 { x: self.x.wrapping_add(other.x), y: self.y.wrapping_add(other.y) }
    }

    pub fn add_assign(&mut self, other: Vector2)
        ensures
            *final(self) == old(self).spec_add(other),
    {
        *self = self.add(other);
    }

    /// Chebyshev distance at most one: both offsets lie in `{-1, 0, 1}`.
    /// This is the sole proximity predicate of the gameplay logic; it
    /// includes the diagonals and the point itself.
    pub open spec fn spec_within_one_of(self, other: Vector2) -> bool {
        -1 <= other.x - self.x <= 1 && -1 <= other.y - self.y <= 1
    }

    pub fn within_one_of(&self, other: &Vector2) -> (r: bool)
        ensures
            r == self.spec_within_one_of(*other),
    {
        let dx: i64 = other.x as i64 - self.x as i64;
        let dy: i64 = other.y as i64 - self.y as i64;
        -1 <= dx && dx <= 1 && -1 <= dy && dy <= 1
    }
}

/// The adjacency predicate holds exactly for the nine offset pairs drawn
/// from `{-1, 0, 1}` in each coordinate, and for no others.
pub proof fn lemma_within_one_of_offsets(a: Vector2, b: Vector2)
    ensures
        a.spec_within_one_of(b) <==> ((b.x - a.x == -1 || b.x - a.x == 0 || b.x - a.x == 1) && (b.y
            - a.y == -1 || b.y - a.y == 0 || b.y - a.y == 1)),
{
}

} // verus!
