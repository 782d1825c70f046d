use vstd::prelude::*;
use crate::math::{is_sqrt, spec_isqrt, isqrt, lemma_sqrt_exists, lemma_isqrt_is};

verus! {

/// Units per kilometer of the fixed-point scale: lengths are thousandths of
/// a kilometer, speeds thousandths of a kilometer per second.
pub const UNITS_PER_KM: i64 = 1000;

/// Earth's radius in scale units (6371 km), used for altitudes.
pub const EARTH_RADIUS: i64 = 6_371_000;

/// Largest coordinate magnitude of a well-formed state vector, in scale
/// units (one million kilometers, comfortably beyond lunar distance). The
/// bound keeps every squared distance within `u64`.
pub const COORD_LIMIT: i64 = 1_000_000_000;

/// A 3-component vector in scale units. The 3-component shape of positions
/// and velocities is part of the type itself, so no constructed record can
/// violate it.
#[derive(Clone, Copy, PartialEq, Eq, Structural, Debug)]
pub struct Vec3 {
    pub x: i64,
    pub y: i64,
    pub z: i64,
}

/// One orbiting object's instantaneous state: catalog identifier, position
/// (scale units, Earth-centered inertial frame) and velocity (scale units
/// per second).
#[derive(Clone, Copy, PartialEq, Eq, Structural, Debug)]
pub struct Satellite {
    pub norad_id: i32,
    pub position: Vec3,
    pub velocity: Vec3,
}

/// The library's only error: a state vector offered at construction did not
/// have exactly 3 components.
#[derive(Clone, Copy, PartialEq, Eq, Structural, Debug)]
pub enum OrbitError {
    InvalidArgument,
}

/// A coordinate the fixed-point model can hold.
pub open spec fn in_range(c: i64) -> bool {
    -COORD_LIMIT <= c && c <= COORD_LIMIT
}

/// All three components within the fixed-point range.
pub open spec fn vec3_wf(v: Vec3) -> bool {
    in_range(v.x) && in_range(v.y) && in_range(v.z)
}

pub open spec fn sq(x: int) -> int {
    x * x
}

/// Squared Euclidean norm, exact.
pub open spec fn norm2(v: Vec3) -> int {
    sq(v.x as int) + sq(v.y as int) + sq(v.z as int)
}

/// Squared Euclidean distance between two vectors, exact.
pub open spec fn diff2(a: Vec3, b: Vec3) -> int {
    sq(a.x - b.x) + sq(a.y - b.y) + sq(a.z - b.z)
}

/// Squared distance between two satellites' positions.
pub open spec fn spec_dist2(a: Satellite, b: Satellite) -> int {
    diff2(a.position, b.position)
}

/// Squared magnitude of the velocity difference of two satellites.
pub open spec fn spec_vel2(a: Satellite, b: Satellite) -> int {
    diff2(a.velocity, b.velocity)
}

/// Distance between two satellites: integer square root (rounded down) of
/// the exact squared distance.
pub open spec fn spec_dist(a: Satellite, b: Satellite) -> int {
    spec_isqrt(spec_dist2(a, b))
}

/// Relative velocity magnitude of two satellites, rounded down.
pub open spec fn spec_rvel(a: Satellite, b: Satellite) -> int {
    spec_isqrt(spec_vel2(a, b))
}

/// Squaring ignores sign, so squared differences are symmetric.
pub proof fn lemma_diff2_symmetric(a: Vec3, b: Vec3)
    ensures
        diff2(a, b) == diff2(b, a),
        diff2(a, a) == 0,
        diff2(a, b) >= 0,
{
    lemma_sq_sym(a.x - b.x);
    lemma_sq_sym(a.y - b.y);
    lemma_sq_sym(a.z - b.z);
}

proof fn lemma_sq_sym(x: int)
    ensures
        sq(x) == sq(-x),
        sq(x) >= 0,
{
    assert(x * x == (-x) * (-x) && x * x >= 0) by (nonlinear_arith);
}

/// Distance is symmetric and zero from a satellite to itself.
pub proof fn lemma_distance_symmetric(a: Satellite, b: Satellite)
    ensures
        spec_dist(a, b) == spec_dist(b, a),
        spec_dist(a, a) == 0,
        spec_dist(a, b) >= 0,
        spec_rvel(a, b) == spec_rvel(b, a),
{
    lemma_diff2_symmetric(a.position, b.position);
    lemma_diff2_symmetric(a.velocity, b.velocity);
    lemma_sqrt_exists(spec_dist2(a, b));
    assert(is_sqrt(0, 0));
    lemma_isqrt_is(0, 0);
}

impl Satellite {
    /// Both state vectors are within the fixed-point range; every kernel
    /// requires it of its inputs.
    pub open spec fn wf(self) -> bool {
        vec3_wf(self.position) && vec3_wf(self.velocity)
    }

    /// Builds a satellite from caller-supplied component lists, failing with
    /// `InvalidArgument` unless both have exactly 3 components.
    pub fn new(norad_id: i32, position: Vec<i64>, velocity: Vec<i64>) -> (r: Result<Satellite, OrbitError>)
        requires
            forall|k: int| 0 <= k < position@.len() ==> in_range(#[trigger] position@[k]),
            forall|k: int| 0 <= k < velocity@.len() ==> in_range(#[trigger] velocity@[k]),
        ensures
            r is Ok <==> (position@.len() == 3 && velocity@.len() == 3),
            r is Ok ==> ({
                let s = r->Ok_0;
                &&& s.norad_id == norad_id
                &&& s.position == (Vec3 { x: position@[0], y: position@[1], z: position@[2] })
                &&& s.velocity == (Vec3 { x: velocity@[0], y: velocity@[1], z: velocity@[2] })
                &&& s.wf()
            }),
            r is Err ==> r->Err_0 == OrbitError::InvalidArgument,
    {
        if position.len() != 3 || velocity.len() != 3 {
            return Err(OrbitError::InvalidArgument);
        }
        Ok(Satellite {
            norad_id,
            position: Vec3 { x: position[0], y: position[1], z: position[2] },
            velocity: Vec3 { x: velocity[0], y: velocity[1], z: velocity[2] },
        })
    }

    /// Euclidean distance to another satellite, rounded down to scale units.
    pub fn distance_to(&self, other: &Satellite) -> (r: u64)
        requires
            self.wf(),
            other.wf(),
        ensures
            r as int == spec_dist(*self, *other),
    {
        let d2: u64 = diff2_exec(&self.position, &other.position);
        isqrt(d2)
    }

    /// Magnitude of the velocity difference, rounded down to scale units
    /// per second.
    pub fn relative_velocity(&self, other: &Satellite) -> (r: u64)
        requires
            self.wf(),
            other.wf(),
        ensures
            r as int == spec_rvel(*self, *other),
    {
        let v2: u64 = diff2_exec(&self.velocity, &other.velocity);
        isqrt(v2)
    }

    /// Altitude above Earth's surface: position norm minus the Earth-radius
    /// constant. Negative below the surface.
    pub fn altitude(&self) -> (r: i64)
        requires
            vec3_wf(self.position),
        ensures
            r as int == spec_isqrt(norm2(self.position)) - EARTH_RADIUS,
    {
        let origin = Vec3 { x: 0, y: 0, z: 0 };
        let n2: u64 = diff2_exec(&self.position, &origin);
        let n: u64 = isqrt(n2);
        proof {
            lemma_root_small(n2 as int, n as int);
        }
        (n as i64) - EARTH_RADIUS
    }

    /// Human-readable one-line summary combining identifier, altitude and
    /// speed (both in scale units).
    pub fn repr(&self) -> (r: String)
        requires
            self.wf(),
        ensures
            r@ == satellite_summary(
                self.norad_id as int,
                spec_isqrt(norm2(self.position)) - EARTH_RADIUS,
                spec_isqrt(norm2(self.velocity)),
            ),
    {
        let alt = self.altitude();
        let speed = self.speed();
        format_satellite_summary(self.norad_id, alt, speed)
    }

    /// Orbital speed: norm of the velocity vector, rounded down.
    pub fn speed(&self) -> (r: u64)
        requires
            vec3_wf(self.velocity),
        ensures
            r as int == spec_isqrt(norm2(self.velocity)),
    {
        let origin = Vec3 { x: 0, y: 0, z: 0 };
        let v2: u64 = diff2_exec(&self.velocity, &origin);
        isqrt(v2)
    }
}

/// The rendered one-line summary of a satellite: a function of the
/// identifier, altitude and speed alone.
pub uninterp spec fn satellite_summary(id: int, alt: int, speed: int) -> Seq<char>;

/// Relies on std's `format!` integer rendering: the text it returns is a
/// function of the three values alone.
#[verifier::external_body]
fn format_satellite_summary(id: i32, alt: i64, speed: u64) -> (r: String)
    ensures
        r@ == satellite_summary(id as int, alt as int, speed as int),
{
    format!("Satellite(norad_id={}, alt={}m, speed={}m/s)", id, alt, speed)
}

/// Distances between well-formed satellites are nonnegative and fit far
/// below `u64::MAX`, so casting them to `u64` is exact.
pub proof fn lemma_dist_bounds(a: Satellite, b: Satellite)
    requires
        a.wf(),
        b.wf(),
    ensures
        0 <= spec_dist2(a, b) <= 12_000_000_000_000_000_000,
        0 <= spec_vel2(a, b) <= 12_000_000_000_000_000_000,
        0 <= spec_dist(a, b) <= 4_000_000_000,
        0 <= spec_rvel(a, b) <= 4_000_000_000,
{
    lemma_sq_bound(a.position.x - b.position.x);
    lemma_sq_bound(a.position.y - b.position.y);
    lemma_sq_bound(a.position.z - b.position.z);
    lemma_sq_bound(a.velocity.x - b.velocity.x);
    lemma_sq_bound(a.velocity.y - b.velocity.y);
    lemma_sq_bound(a.velocity.z - b.velocity.z);
    lemma_sqrt_exists(spec_dist2(a, b));
    lemma_sqrt_exists(spec_vel2(a, b));
    lemma_root_small(spec_dist2(a, b), spec_dist(a, b));
    lemma_root_small(spec_vel2(a, b), spec_rvel(a, b));
}

/// A root of a bounded radicand is itself small enough for `i64` room.
proof fn lemma_root_small(n: int, r: int)
    requires
        is_sqrt(n, r),
        n <= 12_000_000_000_000_000_000,
    ensures
        r <= 4_000_000_000,
{
    if r > 4_000_000_000 {
        assert(r * r > 12_000_000_000_000_000_000) by (nonlinear_arith)
            requires r > 4_000_000_000;
    }
}

/// Exact squared distance between two in-range vectors; fits `u64` because
/// each coordinate is bounded by `COORD_LIMIT`.
fn diff2_exec(a: &Vec3, b: &Vec3) -> (r: u64)
    requires
        vec3_wf(*a),
        vec3_wf(*b),
    ensures
        r as int == diff2(*a, *b),
        r <= 12_000_000_000_000_000_000u64,
{
    let dx: i64 = a.x - b.x;
    let dy: i64 = a.y - b.y;
    let dz: i64 = a.z - b.z;
    proof {
        lemma_sq_bound(dx as int);
        lemma_sq_bound(dy as int);
        lemma_sq_bound(dz as int);
    }
    let sx: i64 = dx * dx;
    let sy: i64 = dy * dy;
    let sz: i64 = dz * dz;
    (sx as u64) + (sy as u64) + (sz as u64)
}

/// A difference of in-range coordinates has a square of at most `4e18`.
proof fn lemma_sq_bound(d: int)
    requires
        -2_000_000_000 <= d <= 2_000_000_000,
    ensures
        0 <= d * d <= 4_000_000_000_000_000_000,
{
    assert(0 <= d * d <= 4_000_000_000_000_000_000) by (nonlinear_arith)
        requires -2_000_000_000 <= d <= 2_000_000_000;
}

} // verus!
