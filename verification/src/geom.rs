//! Fixed-point 3-D geometry.
//!
//! Coordinates are integers with [`SCALE`] units per light-year, clamped to
//! `[-MAX_COORD, MAX_COORD]`.  Distances are compared through their squares,
//! which keeps every comparison exact and free of rounding.

use vstd::prelude::*;

verus! {

/// Fixed-point units per light-year.
pub const SCALE: u64 = 1024;

/// Largest coordinate magnitude the store accepts (2^27 units, about
/// 131 thousand light-years).  Decoded coordinates saturate here, and the
/// bound keeps every squared distance well inside `u64`.
pub const MAX_COORD: i64 = 0x800_0000;

/// A point in 3-D space, in fixed-point units.
#[derive(Clone, Copy, PartialEq, Eq, Structural, Debug)]
pub struct Pt {
    pub x: i64,
    pub y: i64,
    pub z: i64,
}

impl Pt {
    /// Every coordinate lies in the clamped range.
    pub open spec fn wf(self) -> bool {
        &&& -MAX_COORD <= self.x <= MAX_COORD
        &&& -MAX_COORD <= self.y <= MAX_COORD
        &&& -MAX_COORD <= self.z <= MAX_COORD
    }
}

/// Squared Euclidean distance between two points, as a mathematical integer.
pub open spec fn sq_dist_spec(a: Pt, b: Pt) -> int {
    (a.x - b.x) * (a.x - b.x) + (a.y - b.y) * (a.y - b.y) + (a.z - b.z) * (a.z - b.z)
}

/// Upper bound on any squared distance between well-formed points:
/// `3 * (2 * MAX_COORD)^2 == 3 * 2^56`.
pub const MAX_SQ_DIST: u64 = 0x300_0000_0000_0000;

proof fn lemma_square_bound(d: int)
    requires
        -2 * MAX_COORD <= d <= 2 * MAX_COORD,
    ensures
        0 <= d * d <= 0x100_0000_0000_0000,
{
    assert(0 <= d * d <= 0x100_0000_0000_0000) by (nonlinear_arith)
        requires
            -0x1000_0000 <= d <= 0x1000_0000,
    ;
}

/// Bounds of [`sq_dist_spec`] over well-formed points.
pub proof fn lemma_sq_dist_bounds(a: Pt, b: Pt)
    requires
        a.wf(),
        b.wf(),
    ensures
        0 <= sq_dist_spec(a, b) <= MAX_SQ_DIST,
{
    lemma_square_bound(a.x - b.x);
    lemma_square_bound(a.y - b.y);
    lemma_square_bound(a.z - b.z);
}

/// Squared Euclidean distance between two well-formed points.
pub fn sq_dist(a: &Pt, b: &Pt) -> (r: u64)
    requires
        a.wf(),
        b.wf(),
    ensures
        r == sq_dist_spec(*a, *b),
        r <= MAX_SQ_DIST,
{
    proof {
        lemma_sq_dist_bounds(*a, *b);
        lemma_square_bound(a.x - b.x);
        lemma_square_bound(a.y - b.y);
        lemma_square_bound(a.z - b.z);
    }
    let dx: i64 = a.x - b.x;
    let dy: i64 = a.y - b.y;
    let dz: i64 = a.z - b.z;
    (dx * dx + dy * dy + dz * dz) as u64
}

/// The weighted two-square bound `12ab <= a^2 + 36b^2`, from
/// `(a - 6b)^2 >= 0`.
proof fn lemma_weighted_squares(a: int, b: int)
    ensures
        12 * (a * b) <= a * a + 36 * (b * b),
{
    assert((a - 6 * b) * (a - 6 * b) == a * a - 12 * (a * b) + 36 * (b * b)) by (nonlinear_arith);
    assert((a - 6 * b) * (a - 6 * b) >= 0) by (nonlinear_arith);
}

/// The two-leg bound over raw coordinate differences: if `u` has squared
/// norm at most `36 l^2` and `v` at most `l^2`, then `u + v` has squared
/// norm at most `49 l^2`.
proof fn lemma_two_leg_arith(ux: int, uy: int, uz: int, vx: int, vy: int, vz: int, l: int)
    requires
        l >= 0,
        ux * ux + uy * uy + uz * uz <= 36 * (l * l),
        vx * vx + vy * vy + vz * vz <= l * l,
    ensures
        (ux + vx) * (ux + vx) + (uy + vy) * (uy + vy) + (uz + vz) * (uz + vz) <= 49 * (l * l),
{
    lemma_weighted_squares(ux, vx);
    lemma_weighted_squares(uy, vy);
    lemma_weighted_squares(uz, vz);
    assert((ux + vx) * (ux + vx) == ux * ux + 2 * (ux * vx) + vx * vx) by (nonlinear_arith);
    assert((uy + vy) * (uy + vy) == uy * uy + 2 * (uy * vy) + vy * vy) by (nonlinear_arith);
    assert((uz + vz) * (uz + vz) == uz * uz + 2 * (uz * vz) + vz * vz) by (nonlinear_arith);
}

/// Squared distances are symmetric.
pub proof fn lemma_sq_dist_sym(a: Pt, b: Pt)
    ensures
        sq_dist_spec(a, b) == sq_dist_spec(b, a),
{
    assert((a.x - b.x) * (a.x - b.x) == (b.x - a.x) * (b.x - a.x)) by (nonlinear_arith);
    assert((a.y - b.y) * (a.y - b.y) == (b.y - a.y) * (b.y - a.y)) by (nonlinear_arith);
    assert((a.z - b.z) * (a.z - b.z) == (b.z - a.z) * (b.z - a.z)) by (nonlinear_arith);
}

/// The triangle inequality for a two-leg reach, over squared distances: a
/// point `g` within boosted range `6 l` of `s` from which `d` is within
/// plain range `l` places `d` within `7 l` of `s`.
pub proof fn lemma_two_leg_reach(s: Pt, g: Pt, d: Pt, l: int)
    requires
        l >= 0,
        sq_dist_spec(s, g) <= 36 * (l * l),
        sq_dist_spec(g, d) <= l * l,
    ensures
        sq_dist_spec(s, d) <= 49 * (l * l),
{
    lemma_two_leg_arith(s.x - g.x, s.y - g.y, s.z - g.z, g.x - d.x, g.y - d.y, g.z - d.z, l);
    assert((s.x - g.x) + (g.x - d.x) == s.x - d.x);
    assert((s.y - g.y) + (g.y - d.y) == s.y - d.y);
    assert((s.z - g.z) + (g.z - d.z) == s.z - d.z);
}

} // verus!
