//! The 2D point/vector primitive in pico-unit fixed point, and the
//! partial accumulator the entity parsers fill field by field.
use vstd::prelude::*;
use crate::num::{rdiv, round_div, isqrt, floor_sqrt, PICO};
use crate::trig::{S2, spec_sin_cos, sin_cos, spec_atan2, atan2_pd};

verus! {

/// Largest coordinate magnitude a parsed value may carry.
pub const V_MAX: i64 = 501_000_000_000_000_000;

/// Largest coordinate magnitude any stored vertex may carry; every
/// tessellated or stitched point stays within it.
pub const P_BOUND: i64 = 2_000_000_000_000_000_000;

/// A point or translation vector; fields are pico-unit counts.
#[derive(Clone, Copy, PartialEq, Eq, Structural, Debug)]
pub struct Vertex {
    pub x: i64,
    pub y: i64,
}

/// Coordinate accumulator used while a coordinate pair is being read.
pub struct PartialVertex {
    pub x: Option<i64>,
    pub y: Option<i64>,
}

/// The stored-coordinate range every vertex of a path obeys.
pub open spec fn in_bounds(v: Vertex) -> bool {
    -P_BOUND <= v.x <= P_BOUND && -P_BOUND <= v.y <= P_BOUND
}

/// Squared distance between two points, in squared pico-units.
pub open spec fn dist_sq(a: Vertex, b: Vertex) -> int {
    (a.x - b.x) * (a.x - b.x) + (a.y - b.y) * (a.y - b.y)
}

/// The vector of length `radius` at angle `azimuth` pico-degrees; a
/// negative radius flips the vector.
pub open spec fn spec_from_polar(radius: int, azimuth: int) -> Vertex {
    let c = spec_sin_cos(azimuth).0;
    let s = spec_sin_cos(azimuth).1;
    Vertex {
        x: rdiv(radius * c, S2 as int) as i64,
        y: rdiv(radius * s, S2 as int) as i64,
    }
}

impl Vertex {
    /// A point from an accumulator that has both coordinates.
    pub fn from_partial(partial: &PartialVertex) -> (r: Option<Vertex>)
        ensures
            r matches Some(v) ==> partial.x == Some(v.x) && partial.y == Some(v.y),
            r is None <==> (partial.x is None || partial.y is None),
    {
        match (partial.x, partial.y) {
            (Some(dx), Some(dy)) => Some(Vertex { x: dx, y: dy }),
            _ => None,
        }
    }

    /// The vector of length `radius` at angle `azimuth` pico-degrees;
    /// a negative radius flips the vector.
    pub fn from_polar(radius: i64, azimuth: i64) -> (r: Vertex)
        requires
            -P_BOUND <= radius <= P_BOUND,
        ensures
            r == spec_from_polar(radius as int, azimuth as int),
            radius >= 0 ==> -radius <= r.x <= radius && -radius <= r.y <= radius,
            radius < 0 ==> radius <= r.x <= -radius && radius <= r.y <= -radius,
    {
        let (c, s): (i64, i64) = sin_cos(azimuth);
        let ghost ar: int = if radius >= 0 { radius as int } else { -(radius as int) };
        proof {
            assert(-(ar * S2) <= radius * c <= ar * S2
                && -(ar * S2) <= radius * s <= ar * S2) by (nonlinear_arith)
                requires -ar <= radius <= ar, 0 <= ar, -S2 <= c <= S2, -S2 <= s <= S2;
            crate::num::lemma_rdiv_bound(radius * c, S2 as int, ar);
            crate::num::lemma_rdiv_bound(radius * s, S2 as int, ar);
        }
        let dx: i128 = round_div((radius as i128) * (c as i128), S2);
        let dy: i128 = round_div((radius as i128) * (s as i128), S2);
        Vertex { x: dx as i64, y: dy as i64 }
    }

    /// Floor of the Euclidean distance to `other`, in pico-units.
    pub fn distance_to(&self, other: &Vertex) -> (r: i64)
        requires
            in_bounds(*self),
            in_bounds(*other),
        ensures
            r == floor_sqrt(dist_sq(*self, *other)),
            0 <= r,
            r * r <= dist_sq(*self, *other),
            (r + 1) * (r + 1) > dist_sq(*self, *other),
    {
        let v = self.vector_to(other);
        let r = v.magnitude();
        proof {
            assert((self.x - other.x) * (self.x - other.x) == (v.x as int) * (v.x as int)
                && (self.y - other.y) * (self.y - other.y) == (v.y as int) * (v.y as int))
                by (nonlinear_arith)
                requires v.x == other.x - self.x, v.y == other.y - self.y;
        }
        r
    }

    /// Floor of the vector's Euclidean length, in pico-units.
    pub fn magnitude(&self) -> (r: i64)
        requires
            -2 * P_BOUND <= self.x <= 2 * P_BOUND,
            -2 * P_BOUND <= self.y <= 2 * P_BOUND,
        ensures
            r == floor_sqrt(self.x * self.x + self.y * self.y),
            0 <= r,
            r * r <= self.x * self.x + self.y * self.y,
            (r + 1) * (r + 1) > self.x * self.x + self.y * self.y,
    {
        let xi: i128 = self.x as i128;
        let yi: i128 = self.y as i128;
        proof {
            assert(0 <= xi * xi && xi * xi <= 4 * (P_BOUND as int) * (P_BOUND as int)
                && 0 <= yi * yi && yi * yi <= 4 * (P_BOUND as int) * (P_BOUND as int)) by (nonlinear_arith)
                requires -2 * (P_BOUND as int) <= xi <= 2 * (P_BOUND as int),
                    -2 * (P_BOUND as int) <= yi <= 2 * (P_BOUND as int);
        }
        let sq: i128 = xi * xi + yi * yi;
        let r: i128 = isqrt(sq);
        proof {
            assert(r <= 6_000_000_000_000_000_000) by (nonlinear_arith)
                requires r * r <= sq, 0 <= r,
                    sq <= 8 * (P_BOUND as int) * (P_BOUND as int);
        }
        r as i64
    }

    /// The point halfway to `other` (each axis rounded to a count).
    pub fn midpoint(&self, other: &Vertex) -> (r: Vertex)
        requires
            in_bounds(*self),
            in_bounds(*other),
        ensures
            r.x == self.x + rdiv(other.x - self.x, 2),
            r.y == self.y + rdiv(other.y - self.y, 2),
            in_bounds(r),
    {
        let dx: i128 = round_div((other.x as i128) - (self.x as i128), 2);
        let dy: i128 = round_div((other.y as i128) - (self.y as i128), 2);
        Vertex { x: self.x + dx as i64, y: self.y + dy as i64 }
    }

    /// The displacement from this point to `other`.
    pub fn vector_to(&self, other: &Vertex) -> (r: Vertex)
        requires
            in_bounds(*self),
            in_bounds(*other),
        ensures
            r.x == other.x - self.x,
            r.y == other.y - self.y,
    {
        Vertex { x: other.x - self.x, y: other.y - self.y }
    }

    /// The clockwise perpendicular of this vector.
    pub fn normal(&self) -> (r: Vertex)
        requires
            -2 * P_BOUND <= self.x <= 2 * P_BOUND,
            -2 * P_BOUND <= self.y <= 2 * P_BOUND,
        ensures
            r.x == self.y,
            r.y == -self.x,
    {
        Vertex { x: self.y, y: -self.x }
    }

    /// The vector rescaled to one drawing unit of length.
    pub fn unit_vector(&self) -> (r: Vertex)
        requires
            -2 * P_BOUND <= self.x <= 2 * P_BOUND,
            -2 * P_BOUND <= self.y <= 2 * P_BOUND,
            self.x != 0 || self.y != 0,
        ensures
            r.x == rdiv(self.x * (PICO as int), floor_sqrt(self.x * self.x + self.y * self.y)),
            r.y == rdiv(self.y * (PICO as int), floor_sqrt(self.x * self.x + self.y * self.y)),
            -PICO <= r.x <= PICO,
            -PICO <= r.y <= PICO,
    {
        self.with_magnitude(PICO)
    }

    /// The vector rescaled to length `m` (negative `m` flips it).
    pub fn with_magnitude(&self, m: i64) -> (r: Vertex)
        requires
            -2 * P_BOUND <= self.x <= 2 * P_BOUND,
            -2 * P_BOUND <= self.y <= 2 * P_BOUND,
            -2 * P_BOUND <= m <= 2 * P_BOUND,
            self.x != 0 || self.y != 0,
        ensures
            r.x == rdiv(self.x * m, floor_sqrt(self.x * self.x + self.y * self.y)),
            r.y == rdiv(self.y * m, floor_sqrt(self.x * self.x + self.y * self.y)),
            if m >= 0 { -m <= r.x <= m && -m <= r.y <= m } else { m <= r.x <= -m && m <= r.y <= -m },
    {
        let mag: i64 = self.magnitude();
        proof {
            assert(mag >= 1) by (nonlinear_arith)
                requires
                    (mag + 1) * (mag + 1) > self.x * self.x + self.y * self.y,
                    mag >= 0,
                    self.x != 0 || self.y != 0;
            let am = if m >= 0 { m as int } else { -(m as int) };
            assert(-mag <= self.x <= mag && -mag <= self.y <= mag) by (nonlinear_arith)
                requires
                    0 <= mag,
                    self.x * self.x + self.y * self.y < (mag + 1) * (mag + 1);
            assert(-(mag * am) <= self.x * m <= mag * am
                && -(mag * am) <= self.y * m <= mag * am) by (nonlinear_arith)
                requires
                    0 <= am, -am <= m <= am, 0 <= mag,
                    -mag <= self.x <= mag, -mag <= self.y <= mag;
            assert(-(4 * (P_BOUND as int) * (P_BOUND as int)) <= self.x * m
                <= 4 * (P_BOUND as int) * (P_BOUND as int)
                && -(4 * (P_BOUND as int) * (P_BOUND as int)) <= self.y * m
                <= 4 * (P_BOUND as int) * (P_BOUND as int)) by (nonlinear_arith)
                requires
                    -2 * (P_BOUND as int) <= self.x <= 2 * (P_BOUND as int),
                    -2 * (P_BOUND as int) <= self.y <= 2 * (P_BOUND as int),
                    -2 * (P_BOUND as int) <= m <= 2 * (P_BOUND as int);
            crate::num::lemma_rdiv_bound(self.x * m, mag as int, am);
            crate::num::lemma_rdiv_bound(self.y * m, mag as int, am);
        }
        let rx: i128 = round_div((self.x as i128) * (m as i128), mag as i128);
        let ry: i128 = round_div((self.y as i128) * (m as i128), mag as i128);
        Vertex { x: rx as i64, y: ry as i64 }
    }

    /// The direction from this point to `other`, in pico-degrees.
    pub fn angle_to(&self, other: &Vertex) -> (r: i64)
        requires
            in_bounds(*self),
            in_bounds(*other),
        ensures
            r == spec_atan2(other.y - self.y, other.x - self.x),
            -180 * (PICO as int) <= r <= 180 * (PICO as int),
    {
        atan2_pd(other.y - self.y, other.x - self.x)
    }

    /// Componentwise sum with another point or vector.
    pub fn plus(&self, other: &Vertex) -> (r: Vertex)
        requires
            -2 * P_BOUND <= self.x + other.x <= 2 * P_BOUND,
            -2 * P_BOUND <= self.y + other.y <= 2 * P_BOUND,
        ensures
            r.x == self.x + other.x,
            r.y == self.y + other.y,
    {
        Vertex { x: self.x + other.x, y: self.y + other.y }
    }
}

impl PartialVertex {
    /// An accumulator with no coordinate seen yet.
    pub fn new() -> (r: PartialVertex)
        ensures
            r.x is None,
            r.y is None,
    {
        PartialVertex { x: None, y: None }
    }
}

} // verus!
