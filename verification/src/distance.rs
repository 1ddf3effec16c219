//! Great-circle distance between two points on Earth, computed by the
//! haversine formula with Earth radius 6371 km.
//!
//! Coordinates are held in micro-degrees and all arithmetic is fixed-point:
//! angles are scaled to nano-radians, the sine is a truncated Taylor series,
//! and the arcsine is recovered by bisecting that sine. The result is the
//! distance in metres.

use vstd::prelude::*;

verus! {

/// Nano-radians per radian: the common fixed-point scale.
pub const SCALE: i128 = 1_000_000_000;

/// Half pi in nano-radians, rounded to nearest.
pub const HALF_PI_N: i128 = 1_570_796_327;

/// Pi in nano-radians, rounded to nearest.
pub const PI_N: i128 = 3_141_592_654;

/// Earth's radius in metres.
pub const EARTH_RADIUS_M: i128 = 6_371_000;

/// A point on Earth, in micro-degrees of latitude and longitude.
#[derive(Clone, Copy, Debug, PartialEq, Eq, Structural)]
pub struct EarthLocation {
    pub latitude: i64,
    pub longitude: i64,
}

impl Default for EarthLocation {
    /// The origin point: zero latitude and longitude.
    fn default() -> (r: EarthLocation)
        ensures
            r.latitude == 0 && r.longitude == 0,
    {
        EarthLocation { latitude: 0, longitude: 0 }
    }
}

/// A latitude in micro-degrees lies between the poles.
pub open spec fn valid_lat(v: i64) -> bool {
    -90_000_000 <= v <= 90_000_000
}

/// A longitude in micro-degrees lies within a full turn of the meridian.
pub open spec fn valid_lon(v: i64) -> bool {
    -180_000_000 <= v <= 180_000_000
}

/// Both coordinates of the location are in range.
pub open spec fn valid_location(loc: EarthLocation) -> bool {
    valid_lat(loc.latitude) && valid_lon(loc.longitude)
}

/// Micro-degrees to nano-radians, truncated.
pub open spec fn spec_udeg_to_nrad(u: int) -> int {
    u * 17_453_292_519_943 / 1_000_000_000_000
}

/// The truncated Taylor series of the sine on `[0, pi/2]` nano-radians,
/// clamped into `[0, SCALE]`.
pub open spec fn spec_sin_poly(x: int) -> int {
    let x2 = x * x;
    let t1 = x;
    let t2 = t1 * x2 / 6_000_000_000_000_000_000;
    let t3 = t2 * x2 / 20_000_000_000_000_000_000;
    let t4 = t3 * x2 / 42_000_000_000_000_000_000;
    let t5 = t4 * x2 / 72_000_000_000_000_000_000;
    let t6 = t5 * x2 / 110_000_000_000_000_000_000;
    let s = t1 - t2 + t3 - t4 + t5 - t6;
    if s < 0 {
        0
    } else if s > SCALE {
        SCALE as int
    } else {
        s
    }
}

/// The sine on `[0, pi]` nano-radians, by reflection about `pi/2`.
pub open spec fn spec_sin_nrad(x: int) -> int {
    if x > HALF_PI_N {
        spec_sin_poly(PI_N - x)
    } else {
        spec_sin_poly(x)
    }
}

/// The cosine on `[0, pi/2]` nano-radians.
pub open spec fn spec_cos_nrad(x: int) -> int {
    spec_sin_poly(HALF_PI_N - x)
}

/// The haversine term `sin^2(dphi/2) + cos(lat_a) cos(lat_b) sin^2(dlam/2)`,
/// in `SCALE` units, clamped into `[0, SCALE]`. The latitude difference
/// `dphi` and longitude difference `dlam` are non-negative micro-degrees.
pub open spec fn spec_hav(dphi: int, dlam: int, alat: int, blat: int) -> int {
    let sd = spec_sin_nrad(spec_udeg_to_nrad(dphi) / 2);
    let sl = spec_sin_nrad(spec_udeg_to_nrad(dlam) / 2);
    let c1 = spec_cos_nrad(spec_udeg_to_nrad(if alat < 0 {
        -alat
    } else {
        alat
    }));
    let c2 = spec_cos_nrad(spec_udeg_to_nrad(if blat < 0 {
        -blat
    } else {
        blat
    }));
    let term1 = sd * sd / (SCALE as int);
    let cc = c1 * c2 / (SCALE as int);
    let sl2 = sl * sl / (SCALE as int);
    let term2 = cc * sl2 / (SCALE as int);
    let h = term1 + term2;
    if h > SCALE {
        SCALE as int
    } else {
        h
    }
}

/// Bisection for the integer square root: after `k` halvings of the bracket
/// `[lo, hi)`, the greatest value whose square is at most `x`.
pub open spec fn spec_bisqrt(x: int, lo: int, hi: int, k: nat) -> int
    decreases k,
{
    if k == 0 {
        lo
    } else {
        let mid = (lo + hi) / 2;
        if mid * mid <= x {
            spec_bisqrt(x, mid, hi, (k - 1) as nat)
        } else {
            spec_bisqrt(x, lo, mid, (k - 1) as nat)
        }
    }
}

/// The integer square root of a 64-bit value.
pub open spec fn spec_isqrt64(x: int) -> int {
    spec_bisqrt(x, 0, 0x1_0000_0000, 32)
}

/// Bisection for the arcsine: narrows `[lo, hi)` onto the angle in
/// `[0, pi/2]` nano-radians whose sine is `s0`.
pub open spec fn spec_asin_bisect(s0: int, lo: int, hi: int, k: nat) -> int
    decreases k,
{
    if k == 0 {
        lo
    } else {
        let mid = (lo + hi) / 2;
        if mid <= HALF_PI_N && spec_sin_poly(mid) <= s0 {
            spec_asin_bisect(s0, mid, hi, (k - 1) as nat)
        } else {
            spec_asin_bisect(s0, lo, mid, (k - 1) as nat)
        }
    }
}

/// The great-circle distance in metres between two valid locations:
/// `2 R asin(sqrt(h))` over the fixed-point haversine term `h`.
pub open spec fn spec_distance_m(a: EarthLocation, b: EarthLocation) -> int {
    let dphi = if a.latitude >= b.latitude {
        a.latitude - b.latitude
    } else {
        b.latitude - a.latitude
    };
    let dlam = if a.longitude >= b.longitude {
        a.longitude - b.longitude
    } else {
        b.longitude - a.longitude
    };
    let h = spec_hav(dphi, dlam, a.latitude as int, b.latitude as int);
    let s0 = spec_isqrt64(h * (SCALE as int));
    if s0 == 0 {
        0
    } else {
        let t = spec_asin_bisect(s0, 0, 0x8000_0000, 31);
        2 * EARTH_RADIUS_M * t / (SCALE as int)
    }
}

/// The product of values within bounds stays within the bounds' product.
proof fn lemma_mul_le(a: int, b: int, bound_a: int, bound_b: int)
    requires
        0 <= a <= bound_a,
        0 <= b <= bound_b,
    ensures
        0 <= a * b <= bound_a * bound_b,
{
    assert(0 <= a * b <= bound_a * bound_b) by (nonlinear_arith)
        requires
            0 <= a <= bound_a,
            0 <= b <= bound_b,
    ;
}

/// The truncated sine polynomial, in the executable fixed point.
fn sin_poly(x: i128) -> (r: i128)
    requires
        0 <= x <= 0x8000_0000,
    ensures
        r == spec_sin_poly(x as int),
        0 <= r <= SCALE,
{
    proof {
        lemma_mul_le(x as int, x as int, 0x8000_0000, 0x8000_0000);
    }
    let x2: i128 = x * x;
    let t1: i128 = x;
    proof {
        lemma_mul_le(t1 as int, x2 as int, 0x8000_0000int, 0x8000_0000int * 0x8000_0000);
        vstd::arithmetic::div_mod::lemma_div_is_ordered(
            0,
            (t1 * x2) as int,
            6_000_000_000_000_000_000,
        );
        vstd::arithmetic::div_mod::lemma_div_is_ordered(
            (t1 * x2) as int,
            0x8000_0000int * 0x8000_0000 * 0x8000_0000,
            6_000_000_000_000_000_000,
        );
    }
    let t2: i128 = (t1 * x2) / 6_000_000_000_000_000_000;
    proof {
        lemma_mul_le(t2 as int, x2 as int, 0x8000_0000int * 0x8000_0000 * 0x8000_0000
            / 6_000_000_000_000_000_000, 0x8000_0000int * 0x8000_0000);
        vstd::arithmetic::div_mod::lemma_div_is_ordered(
            0,
            (t2 * x2) as int,
            20_000_000_000_000_000_000,
        );
        vstd::arithmetic::div_mod::lemma_div_is_ordered(
            (t2 * x2) as int,
            (0x8000_0000int * 0x8000_0000 * 0x8000_0000 / 6_000_000_000_000_000_000) * (0x8000_0000int
                * 0x8000_0000),
            20_000_000_000_000_000_000,
        );
    }
    let t3: i128 = (t2 * x2) / 20_000_000_000_000_000_000;
    proof {
        lemma_bound_next_term(t3 as int, x2 as int);
    }
    let t4: i128 = (t3 * x2) / 42_000_000_000_000_000_000;
    proof {
        lemma_bound_next_term(t4 as int, x2 as int);
    }
    let t5: i128 = (t4 * x2) / 72_000_000_000_000_000_000;
    proof {
        lemma_bound_next_term(t5 as int, x2 as int);
    }
    let t6: i128 = (t5 * x2) / 110_000_000_000_000_000_000;
    let s: i128 = t1 - t2 + t3 - t4 + t5 - t6;
    if s < 0 {
        0
    } else if s > SCALE {
        SCALE
    } else {
        s
    }
}

/// Each Taylor term stays within the running bound used by `sin_poly`.
proof fn lemma_bound_next_term(t: int, x2: int)
    requires
        0 <= t <= 0x1_0000_0000_0000_0000,
        0 <= x2 <= 0x8000_0000int * 0x8000_0000,
    ensures
        0 <= t * x2 <= 0x1_0000_0000_0000_0000int * (0x8000_0000int * 0x8000_0000),
        0 <= t * x2 / 42_000_000_000_000_000_000 <= 0x1_0000_0000_0000_0000,
        0 <= t * x2 / 72_000_000_000_000_000_000 <= 0x1_0000_0000_0000_0000,
        0 <= t * x2 / 110_000_000_000_000_000_000 <= 0x1_0000_0000_0000_0000,
{
    lemma_mul_le(t, x2, 0x1_0000_0000_0000_0000int, 0x8000_0000int * 0x8000_0000);
    vstd::arithmetic::div_mod::lemma_div_is_ordered(0, t * x2, 42_000_000_000_000_000_000);
    vstd::arithmetic::div_mod::lemma_div_is_ordered(
        t * x2,
        0x1_0000_0000_0000_0000int * (0x8000_0000int * 0x8000_0000),
        42_000_000_000_000_000_000,
    );
    vstd::arithmetic::div_mod::lemma_div_is_ordered(0, t * x2, 72_000_000_000_000_000_000);
    vstd::arithmetic::div_mod::lemma_div_is_ordered(
        t * x2,
        0x1_0000_0000_0000_0000int * (0x8000_0000int * 0x8000_0000),
        72_000_000_000_000_000_000,
    );
    vstd::arithmetic::div_mod::lemma_div_is_ordered(0, t * x2, 110_000_000_000_000_000_000);
    vstd::arithmetic::div_mod::lemma_div_is_ordered(
        t * x2,
        0x1_0000_0000_0000_0000int * (0x8000_0000int * 0x8000_0000),
        110_000_000_000_000_000_000,
    );
}

/// The sine over `[0, pi]` nano-radians.
fn sin_nrad(x: i128) -> (r: i128)
    requires
        0 <= x <= PI_N,
    ensures
        r == spec_sin_nrad(x as int),
        0 <= r <= SCALE,
{
    if x > HALF_PI_N {
        sin_poly(PI_N - x)
    } else {
        sin_poly(x)
    }
}

/// The cosine over `[0, pi/2]` nano-radians.
fn cos_nrad(x: i128) -> (r: i128)
    requires
        0 <= x <= HALF_PI_N,
    ensures
        r == spec_cos_nrad(x as int),
        0 <= r <= SCALE,
{
    sin_poly(HALF_PI_N - x)
}

/// Micro-degrees to nano-radians, truncated.
fn udeg_to_nrad(u: i64) -> (r: i128)
    requires
        0 <= u <= 360_000_000,
    ensures
        r == spec_udeg_to_nrad(u as int),
        0 <= r <= 6_283_185_307,
{
    proof {
        vstd::arithmetic::div_mod::lemma_div_is_ordered(
            0,
            u as int * 17_453_292_519_943,
            1_000_000_000_000,
        );
        vstd::arithmetic::div_mod::lemma_div_is_ordered(
            u as int * 17_453_292_519_943,
            360_000_000int * 17_453_292_519_943,
            1_000_000_000_000,
        );
    }
    (u as i128 * 17_453_292_519_943) / 1_000_000_000_000
}

/// Integer square root of a 64-bit value: the greatest `r` with
/// `r * r <= x`, found by a fixed 32-step bisection.
pub fn isqrt_u64(x: u64) -> (r: u64)
    ensures
        r == spec_isqrt64(x as int),
        r * r <= x,
        x < (r + 1) * (r + 1),
{
    let mut lo: u64 = 0;
    let mut hi: u64 = 0x1_0000_0000;
    let mut i: usize = 0;
    proof {
        vstd::arithmetic::power2::lemma2_to64();
    }
    assert(hi * hi > x) by (nonlinear_arith)
        requires
            hi == 0x1_0000_0000,
            x <= u64::MAX,
    ;
    while i < 32
        invariant
            i <= 32,
            lo < hi <= 0x1_0000_0000,
            hi - lo == vstd::arithmetic::power2::pow2((32 - i) as nat),
            lo * lo <= x,
            hi * hi > x,
            spec_isqrt64(x as int) == spec_bisqrt(x as int, lo as int, hi as int, (32 - i) as nat),
        decreases 32 - i,
    {
        proof {
            vstd::arithmetic::power2::lemma_pow2_unfold((32 - i) as nat);
            vstd::arithmetic::power2::lemma_pow2_pos((31 - i) as nat);
        }
        let mid: u64 = lo + (hi - lo) / 2;
        assert(mid == (lo + hi) / 2);
        assert(mid * mid < 0x1_0000_0000_0000_0000) by (nonlinear_arith)
            requires
                mid < 0x1_0000_0000,
        ;
        if mid * mid <= x {
            lo = mid;
        } else {
            hi = mid;
        }
        i = i + 1;
    }
    proof {
        assert(vstd::arithmetic::power2::pow2(0) == 1) by {
            vstd::arithmetic::power2::lemma2_to64();
        }
        assert(hi == lo + 1);
    }
    lo
}

/// The bisection of the square root of zero stays at zero.
proof fn lemma_bisqrt_zero(hi: int, k: nat)
    requires
        hi >= 1,
    ensures
        spec_bisqrt(0, 0, hi, k) == 0,
    decreases k,
{
    if k > 0 {
        let mid = (0 + hi) / 2;
        vstd::arithmetic::div_mod::lemma_div_is_ordered(0, hi, 2);
        if mid * mid <= 0 {
            assert(mid == 0) by (nonlinear_arith)
                requires
                    mid >= 0,
                    mid * mid <= 0,
            ;
            lemma_bisqrt_zero(hi, (k - 1) as nat);
        } else {
            assert(mid >= 1) by (nonlinear_arith)
                requires
                    mid >= 0,
                    mid * mid > 0,
            ;
            lemma_bisqrt_zero(mid, (k - 1) as nat);
        }
    }
}

/// The great-circle distance in metres between two points, by the haversine
/// formula with Earth radius 6371 km.
#[verifier::loop_isolation(false)]
pub fn compute_distance(origin: &EarthLocation, destination: &EarthLocation) -> (r: u64)
    requires
        valid_location(*origin),
        valid_location(*destination),
    ensures
        r == spec_distance_m(*origin, *destination),
        r <= 20_030_000,
{
    let dphi: i64 = if origin.latitude >= destination.latitude {
        origin.latitude - destination.latitude
    } else {
        destination.latitude - origin.latitude
    };
    let dlam: i64 = if origin.longitude >= destination.longitude {
        origin.longitude - destination.longitude
    } else {
        destination.longitude - origin.longitude
    };
    let alat_abs: i64 = if origin.latitude < 0 {
        -origin.latitude
    } else {
        origin.latitude
    };
    let blat_abs: i64 = if destination.latitude < 0 {
        -destination.latitude
    } else {
        destination.latitude
    };
    let sd = sin_nrad(udeg_to_nrad(dphi) / 2);
    let sl = sin_nrad(udeg_to_nrad(dlam) / 2);
    let c1 = cos_nrad(udeg_to_nrad(alat_abs));
    let c2 = cos_nrad(udeg_to_nrad(blat_abs));
    proof {
        lemma_mul_le(sd as int, sd as int, SCALE as int, SCALE as int);
        lemma_mul_le(sl as int, sl as int, SCALE as int, SCALE as int);
        lemma_mul_le(c1 as int, c2 as int, SCALE as int, SCALE as int);
        vstd::arithmetic::div_mod::lemma_div_is_ordered(0, (sd * sd) as int, SCALE as int);
        vstd::arithmetic::div_mod::lemma_div_is_ordered(
            (sd * sd) as int,
            SCALE as int * SCALE as int,
            SCALE as int,
        );
        vstd::arithmetic::div_mod::lemma_div_is_ordered(0, (sl * sl) as int, SCALE as int);
        vstd::arithmetic::div_mod::lemma_div_is_ordered(
            (sl * sl) as int,
            SCALE as int * SCALE as int,
            SCALE as int,
        );
        vstd::arithmetic::div_mod::lemma_div_is_ordered(0, (c1 * c2) as int, SCALE as int);
        vstd::arithmetic::div_mod::lemma_div_is_ordered(
            (c1 * c2) as int,
            SCALE as int * SCALE as int,
            SCALE as int,
        );
        assert(SCALE as int * SCALE as int / SCALE as int == SCALE as int) by (nonlinear_arith);
    }
    let term1: i128 = (sd * sd) / SCALE;
    let cc: i128 = (c1 * c2) / SCALE;
    let sl2: i128 = (sl * sl) / SCALE;
    proof {
        lemma_mul_le(cc as int, sl2 as int, SCALE as int, SCALE as int);
        vstd::arithmetic::div_mod::lemma_div_is_ordered(0, (cc * sl2) as int, SCALE as int);
        vstd::arithmetic::div_mod::lemma_div_is_ordered(
            (cc * sl2) as int,
            SCALE as int * SCALE as int,
            SCALE as int,
        );
    }
    let term2: i128 = (cc * sl2) / SCALE;
    let mut hav: i128 = term1 + term2;
    if hav > SCALE {
        hav = SCALE;
    }
    let s0: u64 = isqrt_u64((hav as u64) * 1_000_000_000);
    assert(hav as u64 * 1_000_000_000 == hav * (SCALE as int));
    if s0 == 0 {
        return 0u64;
    }
    let mut lo: i128 = 0;
    let mut hi: i128 = 0x8000_0000;
    let mut i: usize = 0;
    proof {
        vstd::arithmetic::power2::lemma2_to64();
    }
    while i < 31
        invariant
            i <= 31,
            0 <= lo <= HALF_PI_N,
            lo < hi <= 0x8000_0000,
            hi - lo == vstd::arithmetic::power2::pow2((31 - i) as nat),
            spec_asin_bisect(s0 as int, 0, 0x8000_0000, 31) == spec_asin_bisect(
                s0 as int,
                lo as int,
                hi as int,
                (31 - i) as nat,
            ),
        decreases 31 - i,
    {
        proof {
            vstd::arithmetic::power2::lemma_pow2_unfold((31 - i) as nat);
            vstd::arithmetic::power2::lemma_pow2_pos((30 - i) as nat);
        }
        let mid: i128 = lo + (hi - lo) / 2;
        assert(mid == (lo + hi) / 2);
        if mid <= HALF_PI_N && sin_poly(mid) <= s0 as i128 {
            lo = mid;
        } else {
            hi = mid;
        }
        i = i + 1;
    }
    proof {
        vstd::arithmetic::div_mod::lemma_div_is_ordered(
            0,
            2 * EARTH_RADIUS_M * lo as int,
            SCALE as int,
        );
        vstd::arithmetic::div_mod::lemma_div_is_ordered(
            2 * EARTH_RADIUS_M * lo as int,
            2 * EARTH_RADIUS_M * HALF_PI_N as int,
            SCALE as int,
        );
    }
    let d: i128 = (2 * EARTH_RADIUS_M * lo) / SCALE;
    d as u64
}

/// The distance from a point to itself is zero.
pub proof fn lemma_distance_zero(a: EarthLocation)
    requires
        valid_location(a),
    ensures
        spec_distance_m(a, a) == 0,
{
    assert(spec_udeg_to_nrad(0) == 0);
    assert(spec_sin_poly(0) == 0);
    assert(spec_hav(0, 0, a.latitude as int, a.latitude as int) == 0) by {
        let c1 = spec_cos_nrad(
            spec_udeg_to_nrad(
                if a.latitude < 0 {
                    -a.latitude as int
                } else {
                    a.latitude as int
                },
            ),
        );
        let cc = c1 * c1 / (SCALE as int);
        assert(cc * 0 == 0) by (nonlinear_arith);
        assert(0 * 0 == 0) by (nonlinear_arith);
    }
    assert(spec_hav(0, 0, a.latitude as int, a.latitude as int) * (SCALE as int) == 0) by (
    nonlinear_arith)
        requires
            spec_hav(0, 0, a.latitude as int, a.latitude as int) == 0,
    ;
    lemma_bisqrt_zero(0x1_0000_0000, 32);
}

/// Distance is symmetric in its two endpoints.
pub proof fn lemma_distance_symmetric(a: EarthLocation, b: EarthLocation)
    ensures
        spec_distance_m(a, b) == spec_distance_m(b, a),
{
    let dphi = if a.latitude >= b.latitude {
        a.latitude - b.latitude
    } else {
        b.latitude - a.latitude
    };
    let dlam = if a.longitude >= b.longitude {
        a.longitude - b.longitude
    } else {
        b.longitude - a.longitude
    };
    let c1 = spec_cos_nrad(spec_udeg_to_nrad(if a.latitude < 0 {
        -a.latitude as int
    } else {
        a.latitude as int
    }));
    let c2 = spec_cos_nrad(spec_udeg_to_nrad(if b.latitude < 0 {
        -b.latitude as int
    } else {
        b.latitude as int
    }));
    assert(c1 * c2 == c2 * c1) by (nonlinear_arith);
    assert(spec_hav(dphi as int, dlam as int, a.latitude as int, b.latitude as int) == spec_hav(
        dphi as int,
        dlam as int,
        b.latitude as int,
        a.latitude as int,
    ));
}

} // verus!
