//! Vertex normals of a triangle mesh.

use crate::fixed::{Int3, Vector3, UNIT};
use vstd::prelude::*;

verus! {

/// The largest magnitude that a coordinate of a mesh vertex may have: 1024
/// units.
pub const COORD_LIMIT: i64 = 1_024_000_000;

/// How far the squared length of a normal may lie from one unit: a
/// ten-thousandth.
pub const NORMAL_TOLERANCE: i64 = 100;

/// The magnitude of `v`.
pub open spec fn magnitude(v: int) -> int {
    if v < 0 {
        -v
    } else {
        v
    }
}

/// The largest of three numbers.
pub open spec fn max3(a: int, b: int, c: int) -> int {
    if a >= b && a >= c {
        a
    } else if b >= c {
        b
    } else {
        c
    }
}

/// Whether `r` is the square root of `n`, rounded down.
pub open spec fn is_isqrt(n: int, r: int) -> bool {
    0 <= r && r * r <= n < (r + 1) * (r + 1)
}

/// The integer square root: the one `r >= 0` with `r * r <= n < (r + 1) * (r + 1)`.
pub open spec fn isqrt(n: int) -> int {
    choose|r: int| is_isqrt(n, r)
}

/// The magnitude `a` of a component, brought to the scale on which the
/// largest magnitude `m` of the vector becomes `2^30`. Where `m` is `2^64` or
/// more, both first lose their 34 lowest bits.
pub open spec fn reduce(a: int, m: int) -> int {
    if m >= 0x1_0000_0000_0000_0000 {
        ((a / 0x4_0000_0000) * 0x4000_0000) / (m / 0x4_0000_0000)
    } else {
        (a * 0x4000_0000) / m
    }
}

/// The component of the unit vector that belongs to the reduced magnitude
/// `s` of a vector of reduced length `len`, with the sign of `v`.
pub open spec fn unit_component(v: int, s: int, len: int) -> int {
    if v < 0 {
        -((s * UNIT) / len)
    } else {
        (s * UNIT) / len
    }
}

/// The vector of length one unit in the direction of `v`, or `(0, 1, 0)`
/// where `v` is zero.
pub open spec fn normalize(v: Int3) -> Vector3 {
    let m = max3(magnitude(v.x), magnitude(v.y), magnitude(v.z));
    if m == 0 {
        Vector3 { x: 0, y: UNIT, z: 0 }
    } else {
        let sx = reduce(magnitude(v.x), m);
        let sy = reduce(magnitude(v.y), m);
        let sz = reduce(magnitude(v.z), m);
        let len = isqrt(sx * sx + sy * sy + sz * sz);
        Vector3 {
            x: unit_component(v.x, sx, len) as i64,
            y: unit_component(v.y, sy, len) as i64,
            z: unit_component(v.z, sz, len) as i64,
        }
    }
}

/// There is only one integer square root.
pub proof fn lemma_isqrt_unique(n: int, r: int)
    requires
        0 <= r,
        r * r <= n < (r + 1) * (r + 1),
    ensures
        isqrt(n) == r,
{
    let q = isqrt(n);
    assert(is_isqrt(n, r));
    assert(is_isqrt(n, q));
    assert(q == r) by (nonlinear_arith)
        requires
            0 <= r,
            r * r <= n < (r + 1) * (r + 1),
            0 <= q,
            q * q <= n < (q + 1) * (q + 1),
    {
        if q < r {
            assert((q + 1) * (q + 1) <= r * r);
        } else if r < q {
            assert((r + 1) * (r + 1) <= q * q);
        }
    }
}

/// The reduced magnitudes of a vector that is not zero: none exceeds `2^30`,
/// and the largest is `2^30`.
pub proof fn lemma_reduce_bounds(a: int, m: int)
    requires
        0 <= a <= m,
        0 < m,
    ensures
        0 <= reduce(a, m) <= 0x4000_0000,
        reduce(m, m) == 0x4000_0000,
{
    if m >= 0x1_0000_0000_0000_0000 {
        let a1 = a / 0x4_0000_0000;
        let m1 = m / 0x4_0000_0000;
        assert(0 <= a1 <= m1 && m1 >= 0x4000_0000);
        assert(0 <= (a1 * 0x4000_0000) / m1 <= 0x4000_0000 && (m1 * 0x4000_0000) / m1
            == 0x4000_0000) by (nonlinear_arith)
            requires
                0 <= a1 <= m1,
                m1 > 0,
        ;
    } else {
        assert(0 <= (a * 0x4000_0000) / m <= 0x4000_0000 && (m * 0x4000_0000) / m == 0x4000_0000)
            by (nonlinear_arith)
            requires
                0 <= a <= m,
                m > 0,
        ;
    }
}

/// The integer square root of a number below `2^62`.
fn isqrt_exec(n: u64) -> (r: u64)
    requires
        n < 0x4000_0000_0000_0000,
    ensures
        r == isqrt(n as int),
        r * r <= n < (r + 1) * (r + 1),
        r < 0x8000_0000,
{
    let mut lo: u64 = 0;
    let mut hi: u64 = 0x8000_0000;
    while hi - lo > 1
        invariant
            lo < hi <= 0x8000_0000,
            lo * lo <= n < hi * hi,
        decreases hi - lo,
    {
        let mid = lo + (hi - lo) / 2;
        assert(mid * mid < 0x4000_0000_0000_0000) by (nonlinear_arith)
            requires
                mid < 0x8000_0000,
        ;
        if mid * mid <= n {
            lo = mid;
        } else {
            hi = mid;
        }
    }
    proof {
        lemma_isqrt_unique(n as int, lo as int);
    }
    lo
}

/// The magnitude of a wide integer.
fn magnitude_exec(v: i128) -> (r: u128)
    requires
        v > i128::MIN,
    ensures
        r == magnitude(v as int),
{
    if v < 0 {
        (-v) as u128
    } else {
        v as u128
    }
}

/// Brings the magnitude `a` to the scale on which `m` becomes `2^30`.
fn reduce_exec(a: u128, m: u128) -> (r: u64)
    requires
        a <= m,
        0 < m,
        m <= i128::MAX,
    ensures
        r == reduce(a as int, m as int),
{
    proof {
        lemma_reduce_bounds(a as int, m as int);
    }
    if m >= 0x1_0000_0000_0000_0000 {
        let a1 = a / 0x4_0000_0000;
        let m1 = m / 0x4_0000_0000;
        assert(a1 * 0x4000_0000 <= 0x2000_0000_0000_0000_0000_0000_0000_0000) by (nonlinear_arith)
            requires
                a1 <= 0x2000_0000_0000_0000_0000_0000,
        ;
        ((a1 * 0x4000_0000) / m1) as u64
    } else {
        assert(a * 0x4000_0000 <= 0x4000_0000_0000_0000_0000_0000) by (nonlinear_arith)
            requires
                a <= 0x1_0000_0000_0000_0000,
        ;
        ((a * 0x4000_0000) / m) as u64
    }
}

/// One component of the unit vector.
fn unit_component_exec(v: i128, s: u64, len: u64) -> (r: i64)
    requires
        s <= 0x4000_0000 <= len,
    ensures
        r == unit_component(v as int, s as int, len as int),
        -UNIT <= r <= UNIT,
{
    assert(s * 1_000_000 <= 0x4000_0000 * 1_000_000 && (s * 1_000_000) / (len as int)
        <= 1_000_000) by (nonlinear_arith)
        requires
            0 <= s <= 0x4000_0000 <= len,
    ;
    let q = ((s * 1_000_000) / len) as i64;
    if v < 0 {
        -q
    } else {
        q
    }
}

/// Scales a vector to the length of one unit. The zero vector has no
/// direction: its place is taken by `(0, 1, 0)`.
pub fn normalize_exec(x: i128, y: i128, z: i128) -> (n: Vector3)
    requires
        x > i128::MIN,
        y > i128::MIN,
        z > i128::MIN,
    ensures
        n == normalize(Int3 { x: x as int, y: y as int, z: z as int }),
{
    let ax = magnitude_exec(x);
    let ay = magnitude_exec(y);
    let az = magnitude_exec(z);
    let m = if ax >= ay && ax >= az {
        ax
    } else if ay >= az {
        ay
    } else {
        az
    };
    if m == 0 {
        return Vector3 { x: 0, y: UNIT, z: 0 };
    }
    let sx = reduce_exec(ax, m);
    let sy = reduce_exec(ay, m);
    let sz = reduce_exec(az, m);
    proof {
        lemma_reduce_bounds(ax as int, m as int);
        lemma_reduce_bounds(ay as int, m as int);
        lemma_reduce_bounds(az as int, m as int);
        lemma_squares_fit(sx as int, sy as int, sz as int);
    }
    let len = isqrt_exec(sx * sx + sy * sy + sz * sz);
    proof {
        lemma_length_floor(sx as int, sy as int, sz as int, len as int);
    }
    Vector3 {
        x: unit_component_exec(x, sx, len),
        y: unit_component_exec(y, sy, len),
        z: unit_component_exec(z, sz, len),
    }
}

proof fn lemma_squares_fit(sx: int, sy: int, sz: int)
    requires
        0 <= sx <= 0x4000_0000,
        0 <= sy <= 0x4000_0000,
        0 <= sz <= 0x4000_0000,
    ensures
        0 <= sx * sx <= 0x1000_0000_0000_0000,
        0 <= sy * sy <= 0x1000_0000_0000_0000,
        0 <= sz * sz <= 0x1000_0000_0000_0000,
{
    assert(0 <= sx * sx <= 0x1000_0000_0000_0000) by (nonlinear_arith)
        requires
            0 <= sx <= 0x4000_0000,
    ;
    assert(0 <= sy * sy <= 0x1000_0000_0000_0000) by (nonlinear_arith)
        requires
            0 <= sy <= 0x4000_0000,
    ;
    assert(0 <= sz * sz <= 0x1000_0000_0000_0000) by (nonlinear_arith)
        requires
            0 <= sz <= 0x4000_0000,
    ;
}

/// Where one reduced magnitude is `2^30`, the reduced length is at least
/// that.
proof fn lemma_length_floor(sx: int, sy: int, sz: int, len: int)
    requires
        0 <= sx,
        0 <= sy,
        0 <= sz,
        sx == 0x4000_0000 || sy == 0x4000_0000 || sz == 0x4000_0000,
        0 <= len,
        sx * sx + sy * sy + sz * sz < (len + 1) * (len + 1),
    ensures
        len >= 0x4000_0000,
{
    assert(len >= 0x4000_0000) by (nonlinear_arith)
        requires
            0 <= sx,
            0 <= sy,
            0 <= sz,
            sx == 0x4000_0000 || sy == 0x4000_0000 || sz == 0x4000_0000,
            0 <= len,
            sx * sx + sy * sy + sz * sz < (len + 1) * (len + 1),
    {
        assert(sx * sx >= 0 && sy * sy >= 0 && sz * sz >= 0);
        assert(0x4000_0000 * 0x4000_0000 <= sx * sx + sy * sy + sz * sz);
        if len < 0x4000_0000 {
            assert((len + 1) * (len + 1) <= 0x4000_0000 * 0x4000_0000);
        }
    }
}

/// Every natural number has an integer square root.
pub proof fn lemma_isqrt_exists(n: int)
    requires
        0 <= n,
    ensures
        is_isqrt(n, isqrt(n)),
    decreases n,
{
    if n == 0 {
        assert(is_isqrt(0, 0));
    } else {
        lemma_isqrt_exists(n - 1);
        let r = isqrt(n - 1);
        assert(is_isqrt(n, r) || is_isqrt(n, r + 1)) by (nonlinear_arith)
            requires
                is_isqrt(n - 1, r),
        ;
    }
}

/// The quotient `q` of `s * UNIT` by `len`, rounded down, times `len`, lies
/// just below `s * UNIT`; so do the squares.
proof fn lemma_quotient_squares(s: int, len: int, q: int)
    requires
        0 <= s <= len,
        0 < len,
        q == (s * UNIT) / len,
    ensures
        0 <= q <= UNIT,
        (q * q) * (len * len) <= (s * s) * (UNIT * UNIT),
        ((q + 1) * (q + 1)) * (len * len) > (s * s) * (UNIT * UNIT),
{
    let a = s * UNIT;
    assert(0 <= q <= UNIT && q * len <= a < (q + 1) * len) by (nonlinear_arith)
        requires
            0 <= s <= len,
            0 < len,
            a == s * UNIT,
            q == a / len,
            UNIT == 1_000_000,
    ;
    let lo = q * len;
    let hi = (q + 1) * len;
    assert(lo * lo <= a * a < hi * hi) by (nonlinear_arith)
        requires
            0 <= lo <= a < hi,
    ;
    assert(lo * lo == (q * q) * (len * len)) by (nonlinear_arith)
        requires
            lo == q * len,
    ;
    assert(hi * hi == ((q + 1) * (q + 1)) * (len * len)) by (nonlinear_arith)
        requires
            hi == (q + 1) * len,
    ;
    assert(a * a == (s * s) * (UNIT * UNIT)) by (nonlinear_arith)
        requires
            a == s * UNIT,
    ;
}

/// The squared length of three quotients lies within the tolerance of one
/// unit.
proof fn lemma_unit_length(sx: int, sy: int, sz: int, len: int, qx: int, qy: int, qz: int)
    requires
        0 <= sx <= len,
        0 <= sy <= len,
        0 <= sz <= len,
        len >= 0x4000_0000,
        is_isqrt(sx * sx + sy * sy + sz * sz, len),
        qx == (sx * UNIT) / len,
        qy == (sy * UNIT) / len,
        qz == (sz * UNIT) / len,
    ensures
        (UNIT - NORMAL_TOLERANCE) * (UNIT - NORMAL_TOLERANCE) <= qx * qx + qy * qy + qz * qz <= (
        UNIT + NORMAL_TOLERANCE) * (UNIT + NORMAL_TOLERANCE),
{
    lemma_quotient_squares(sx, len, qx);
    lemma_quotient_squares(sy, len, qy);
    lemma_quotient_squares(sz, len, qz);
    let below2 = qx * qx + qy * qy + qz * qz;
    let above2 = (qx + 1) * (qx + 1) + (qy + 1) * (qy + 1) + (qz + 1) * (qz + 1);
    let s2 = sx * sx + sy * sy + sz * sz;
    let l2 = len * len;
    let u2 = UNIT * UNIT;
    assert(l2 > 0 && u2 > 0) by (nonlinear_arith)
        requires
            l2 == len * len,
            len > 0,
            u2 == UNIT * UNIT,
            UNIT > 0,
    ;
    assert(below2 * l2 == (qx * qx) * l2 + (qy * qy) * l2 + (qz * qz) * l2) by (nonlinear_arith)
        requires
            below2 == qx * qx + qy * qy + qz * qz,
    ;
    assert(above2 * l2 == ((qx + 1) * (qx + 1)) * l2 + ((qy + 1) * (qy + 1)) * l2 + ((qz + 1) * (qz
        + 1)) * l2) by (nonlinear_arith)
        requires
            above2 == (qx + 1) * (qx + 1) + (qy + 1) * (qy + 1) + (qz + 1) * (qz + 1),
    ;
    assert(s2 * u2 == (sx * sx) * u2 + (sy * sy) * u2 + (sz * sz) * u2) by (nonlinear_arith)
        requires
            s2 == sx * sx + sy * sy + sz * sz,
    ;
    assert(below2 * l2 <= s2 * u2 < above2 * l2);
    // From above: the squared length falls below that of (UNIT + 100).
    let top = (UNIT + NORMAL_TOLERANCE) * (UNIT + NORMAL_TOLERANCE);
    assert(s2 * u2 < top * l2) by (nonlinear_arith)
        requires
            l2 == len * len,
            u2 == UNIT * UNIT,
            top == (UNIT + NORMAL_TOLERANCE) * (UNIT + NORMAL_TOLERANCE),
            0 <= s2 < (len + 1) * (len + 1),
            len >= 0x4000_0000,
            UNIT == 1_000_000,
            NORMAL_TOLERANCE == 100,
    {
        assert(UNIT * (len + 1) <= (UNIT + NORMAL_TOLERANCE) * len);
        assert((UNIT * (len + 1)) * (UNIT * (len + 1)) <= ((UNIT + NORMAL_TOLERANCE) * len) * ((
        UNIT + NORMAL_TOLERANCE) * len));
        assert((UNIT * (len + 1)) * (UNIT * (len + 1)) == u2 * ((len + 1) * (len + 1)));
        assert(((UNIT + NORMAL_TOLERANCE) * len) * ((UNIT + NORMAL_TOLERANCE) * len) == top * l2);
        assert(s2 * u2 < u2 * ((len + 1) * (len + 1)));
    }
    assert(below2 < top) by (nonlinear_arith)
        requires
            below2 * l2 < top * l2,
            l2 > 0,
    ;
    // From below: the squared length of the quotients plus one exceeds UNIT.
    assert(above2 > u2) by (nonlinear_arith)
        requires
            s2 * u2 < above2 * l2,
            s2 >= l2,
            l2 > 0,
            u2 > 0,
    ;
    assert(above2 == below2 + 2 * (qx + qy + qz) + 3) by (nonlinear_arith)
        requires
            below2 == qx * qx + qy * qy + qz * qz,
            above2 == (qx + 1) * (qx + 1) + (qy + 1) * (qy + 1) + (qz + 1) * (qz + 1),
    ;
    assert(u2 - 6 * UNIT - 3 >= (UNIT - NORMAL_TOLERANCE) * (UNIT - NORMAL_TOLERANCE))
        by (nonlinear_arith)
        requires
            u2 == UNIT * UNIT,
            UNIT == 1_000_000,
            NORMAL_TOLERANCE == 100,
    ;
}

/// A normal has the length of one unit: where the vector is not zero, the
/// squared length of `normalize(v)` lies between those of a unit less and a
/// unit more the tolerance, a ten-thousandth. The zero vector gives
/// `(0, 1, 0)`, of length exactly one.
pub proof fn lemma_normal_unit_length(v: Int3)
    ensures
        ({
            let n = normalize(v).ints();
            (UNIT - NORMAL_TOLERANCE) * (UNIT - NORMAL_TOLERANCE) <= n.norm_squared() <= (UNIT
                + NORMAL_TOLERANCE) * (UNIT + NORMAL_TOLERANCE)
        }),
{
    let m = max3(magnitude(v.x), magnitude(v.y), magnitude(v.z));
    if m == 0 {
        assert(normalize(v) == Vector3 { x: 0, y: UNIT, z: 0 });
        assert(normalize(v).ints().norm_squared() == UNIT * UNIT);
        assert((UNIT - NORMAL_TOLERANCE) * (UNIT - NORMAL_TOLERANCE) <= UNIT * UNIT <= (UNIT
            + NORMAL_TOLERANCE) * (UNIT + NORMAL_TOLERANCE)) by (nonlinear_arith)
            requires
                UNIT == 1_000_000,
                NORMAL_TOLERANCE == 100,
        ;
    } else {
        let sx = reduce(magnitude(v.x), m);
        let sy = reduce(magnitude(v.y), m);
        let sz = reduce(magnitude(v.z), m);
        lemma_reduce_bounds(magnitude(v.x), m);
        lemma_reduce_bounds(magnitude(v.y), m);
        lemma_reduce_bounds(magnitude(v.z), m);
        lemma_squares_fit(sx, sy, sz);
        let s2 = sx * sx + sy * sy + sz * sz;
        lemma_isqrt_exists(s2);
        let len = isqrt(s2);
        lemma_length_floor(sx, sy, sz, len);
        let qx = (sx * UNIT) / len;
        let qy = (sy * UNIT) / len;
        let qz = (sz * UNIT) / len;
        lemma_unit_length(sx, sy, sz, len, qx, qy, qz);
        lemma_quotient_squares(sx, len, qx);
        lemma_quotient_squares(sy, len, qy);
        lemma_quotient_squares(sz, len, qz);
        let n = normalize(v).ints();
        assert(n.x == unit_component(v.x, sx, len));
        assert(n.y == unit_component(v.y, sy, len));
        assert(n.z == unit_component(v.z, sz, len));
        assert(n.x * n.x == qx * qx) by (nonlinear_arith)
            requires
                n.x == qx || n.x == -qx,
        ;
        assert(n.y * n.y == qy * qy) by (nonlinear_arith)
            requires
                n.y == qy || n.y == -qy,
        ;
        assert(n.z * n.z == qz * qz) by (nonlinear_arith)
            requires
                n.z == qz || n.z == -qz,
        ;
    }
}

/// From `x * c <= y * c` with a positive `c`, `x <= y`.
proof fn lemma_cancel(x: int, y: int, c: int)
    requires
        c > 0,
        x * c <= y * c,
    ensures
        x <= y,
{
    assert(x <= y) by (nonlinear_arith)
        requires
            c > 0,
            x * c <= y * c,
    ;
}

/// What the rounding of a quotient costs in a cross product: where `p` is
/// `(a * k) / d` rounded down and `q` is `(b * k) / d` rounded down, the
/// difference of `p * b` and `q * a` is at most `a`.
proof fn lemma_quotients_cross(a: int, b: int, k: int, d: int, p: int, q: int)
    requires
        0 <= a,
        0 <= b,
        0 <= k,
        0 < d,
        p == (a * k) / d,
        q == (b * k) / d,
    ensures
        p * b - q * a <= a,
        0 <= p,
        0 <= q,
{
    let ak = a * k;
    let bk = b * k;
    assert(0 <= p && 0 <= q && p * d <= ak && q * d >= bk - d + 1) by (nonlinear_arith)
        requires
            0 <= a,
            0 <= b,
            0 <= k,
            0 < d,
            ak == a * k,
            bk == b * k,
            p == ak / d,
            q == bk / d,
    ;
    assert((p * d) * b <= ak * b) by (nonlinear_arith)
        requires
            p * d <= ak,
            0 <= b,
    ;
    assert((q * d) * a >= (bk - d) * a) by (nonlinear_arith)
        requires
            q * d >= bk - d,
            0 <= a,
    ;
    assert((p * b - q * a) * d == (p * d) * b - (q * d) * a) by (nonlinear_arith);
    assert(ak * b - (bk - d) * a == a * d) by (nonlinear_arith)
        requires
            ak == a * k,
            bk == b * k,
    ;
    lemma_cancel(p * b - q * a, a, d);
}

/// Reducing two magnitudes of a vector keeps their ratio: the difference of
/// the products crosswise is at most twice the largest magnitude.
proof fn lemma_reduce_cross(a: int, b: int, m: int)
    requires
        0 <= a <= m,
        0 <= b <= m,
        0 < m,
    ensures
        reduce(a, m) * b - reduce(b, m) * a <= 2 * m,
{
    if m >= 0x1_0000_0000_0000_0000 {
        let s = 0x4_0000_0000;
        let a1 = a / s;
        let b1 = b / s;
        let m1 = m / s;
        let p = reduce(a, m);
        let q = reduce(b, m);
        assert(0 <= a1 <= m1 && 0 <= b1 <= m1 && m1 >= 0x4000_0000);
        lemma_quotients_cross(a1, b1, 0x4000_0000, m1, p, q);
        // p * b1 - q * a1 <= a1, and b, a lie within s of s * b1, s * a1.
        assert(p <= 0x4000_0000) by {
            lemma_reduce_bounds(a, m);
        }
        assert(p * b - q * a <= s * (p * b1 - q * a1) + p * s) by (nonlinear_arith)
            requires
                s * b1 <= b < s * b1 + s,
                s * a1 <= a,
                0 <= p,
                0 <= q,
                s > 0,
        {
            assert(p * b <= p * (s * b1 + s));
            assert(q * a >= q * (s * a1));
        }
        assert(s * (p * b1 - q * a1) <= s * a1) by (nonlinear_arith)
            requires
                p * b1 - q * a1 <= a1,
                s > 0,
        ;
        assert(p * s <= 0x4000_0000 * s) by (nonlinear_arith)
            requires
                0 <= p <= 0x4000_0000,
                s > 0,
        ;
    } else {
        lemma_quotients_cross(a, b, 0x4000_0000, m, reduce(a, m), reduce(b, m));
    }
}

/// The cross product of the magnitudes of a normal and of the vector that it
/// was made from, for one pair of components.
proof fn lemma_unit_cross(a: int, b: int, m: int, sa: int, sb: int, len: int, qa: int, qb: int)
    requires
        0 <= a <= m,
        0 <= b <= m,
        0 < m,
        sa == reduce(a, m),
        sb == reduce(b, m),
        len >= 0x4000_0000,
        qa == (sa * UNIT) / len,
        qb == (sb * UNIT) / len,
    ensures
        qa * b - qb * a <= 3 * m,
{
    lemma_reduce_bounds(a, m);
    lemma_reduce_bounds(b, m);
    lemma_reduce_cross(a, b, m);
    let y = sa * b - sb * a;
    assert(qa * len <= sa * UNIT && qb * len >= sb * UNIT - len && 0 <= qa && 0 <= qb)
        by (nonlinear_arith)
        requires
            0 <= sa,
            0 <= sb,
            len > 0,
            qa == (sa * UNIT) / len,
            qb == (sb * UNIT) / len,
            UNIT == 1_000_000,
    ;
    assert((qa * len) * b <= (sa * UNIT) * b) by (nonlinear_arith)
        requires
            qa * len <= sa * UNIT,
            0 <= b,
    ;
    assert((qb * len) * a >= (sb * UNIT - len) * a) by (nonlinear_arith)
        requires
            qb * len >= sb * UNIT - len,
            0 <= a,
    ;
    assert((qa * b - qb * a) * len == (qa * len) * b - (qb * len) * a) by (nonlinear_arith);
    assert((sa * UNIT) * b - (sb * UNIT - len) * a == UNIT * y + len * a) by (nonlinear_arith)
        requires
            y == sa * b - sb * a,
    ;
    assert(UNIT * y + len * a <= (3 * m) * len) by (nonlinear_arith)
        requires
            y <= 2 * m,
            0 <= a <= m,
            0 < m,
            len >= 0x4000_0000,
            UNIT == 1_000_000,
    {
        assert(UNIT * y <= UNIT * (2 * m));
        assert(UNIT * (2 * m) <= len * (2 * m));
        assert(len * a <= len * m);
    }
    lemma_cancel(qa * b - qb * a, 3 * m, len);
}

/// The cross product of a normal and of the vector that it was made from,
/// for one pair of components with their signs.
proof fn lemma_signed_cross(vx: int, vy: int, m: int, len: int)
    requires
        magnitude(vx) <= m,
        magnitude(vy) <= m,
        0 < m,
        len >= 0x4000_0000,
    ensures
        ({
            let nx = unit_component(vx, reduce(magnitude(vx), m), len);
            let ny = unit_component(vy, reduce(magnitude(vy), m), len);
            -3 * m <= nx * vy - ny * vx <= 3 * m
        }),
{
    let a = magnitude(vx);
    let b = magnitude(vy);
    let sa = reduce(a, m);
    let sb = reduce(b, m);
    let qa = (sa * UNIT) / len;
    let qb = (sb * UNIT) / len;
    lemma_unit_cross(a, b, m, sa, sb, len, qa, qb);
    lemma_unit_cross(b, a, m, sb, sa, len, qb, qa);
    let nx = unit_component(vx, sa, len);
    let ny = unit_component(vy, sb, len);
    let x = qa * b - qb * a;
    assert(nx * vy - ny * vx == x || nx * vy - ny * vx == -x) by (nonlinear_arith)
        requires
            x == qa * b - qb * a,
            (vx < 0 && nx == -qa && a == -vx) || (vx >= 0 && nx == qa && a == vx),
            (vy < 0 && ny == -qb && b == -vy) || (vy >= 0 && ny == qb && b == vy),
    ;
}

/// A normal points the way of the vector that it was made from. Each of its
/// components has the sign of the vector's component, or is zero. And the
/// cross product of the two is small: none of its components exceeds three
/// times the vector's largest magnitude, where the product of the two
/// lengths is about a million times that magnitude at the least.
pub proof fn lemma_normal_direction(v: Int3)
    requires
        v != Int3::zero(),
    ensures
        ({
            let n = normalize(v).ints();
            let m = max3(magnitude(v.x), magnitude(v.y), magnitude(v.z));
            let c = n.cross(v);
            &&& v.x >= 0 ==> n.x >= 0
            &&& v.x <= 0 ==> n.x <= 0
            &&& v.y >= 0 ==> n.y >= 0
            &&& v.y <= 0 ==> n.y <= 0
            &&& v.z >= 0 ==> n.z >= 0
            &&& v.z <= 0 ==> n.z <= 0
            &&& -3 * m <= c.x <= 3 * m
            &&& -3 * m <= c.y <= 3 * m
            &&& -3 * m <= c.z <= 3 * m
        }),
{
    let m = max3(magnitude(v.x), magnitude(v.y), magnitude(v.z));
    assert(m > 0);
    let sx = reduce(magnitude(v.x), m);
    let sy = reduce(magnitude(v.y), m);
    let sz = reduce(magnitude(v.z), m);
    lemma_reduce_bounds(magnitude(v.x), m);
    lemma_reduce_bounds(magnitude(v.y), m);
    lemma_reduce_bounds(magnitude(v.z), m);
    lemma_squares_fit(sx, sy, sz);
    let s2 = sx * sx + sy * sy + sz * sz;
    lemma_isqrt_exists(s2);
    let len = isqrt(s2);
    lemma_length_floor(sx, sy, sz, len);
    lemma_quotient_squares(sx, len, (sx * UNIT) / len);
    lemma_quotient_squares(sy, len, (sy * UNIT) / len);
    lemma_quotient_squares(sz, len, (sz * UNIT) / len);
    let n = normalize(v).ints();
    assert(n.x == unit_component(v.x, sx, len));
    assert(n.y == unit_component(v.y, sy, len));
    assert(n.z == unit_component(v.z, sz, len));
    lemma_signed_cross(v.y, v.z, m, len);
    lemma_signed_cross(v.z, v.x, m, len);
    lemma_signed_cross(v.x, v.y, m, len);
}

/// Whether no coordinate of `p` exceeds `COORD_LIMIT` in magnitude.
pub open spec fn within_limit(p: Vector3) -> bool {
    &&& -COORD_LIMIT <= p.x <= COORD_LIMIT
    &&& -COORD_LIMIT <= p.y <= COORD_LIMIT
    &&& -COORD_LIMIT <= p.z <= COORD_LIMIT
}

/// The normal of face `f`, not normalized: the cross product of its two edge
/// vectors from its first corner. Its length is twice the face's area.
pub open spec fn face_normal(positions: Seq<Vector3>, indices: Seq<u16>, f: int) -> Int3 {
    let a = positions[indices[3 * f] as int].ints();
    let b = positions[indices[3 * f + 1] as int].ints();
    let c = positions[indices[3 * f + 2] as int].ints();
    b.minus(a).cross(c.minus(a))
}

/// What corner `k` of face `f` adds to the normal of vertex `v`: the face's
/// normal where that corner is `v`, else nothing.
pub open spec fn corner_share(
    positions: Seq<Vector3>,
    indices: Seq<u16>,
    f: int,
    k: int,
    v: int,
) -> Int3 {
    share(indices[3 * f + k] == v, face_normal(positions, indices, f))
}

/// The vector `n` where `hit` holds, else nothing.
pub open spec fn share(hit: bool, n: Int3) -> Int3 {
    if hit {
        n
    } else {
        Int3::zero()
    }
}

/// The sum of the normals of those of the first `n` faces that have `v` for
/// a corner, once for each such corner.
pub open spec fn normal_sum(positions: Seq<Vector3>, indices: Seq<u16>, n: int, v: int) -> Int3
    decreases n,
{
    if n <= 0 {
        Int3::zero()
    } else {
        normal_sum(positions, indices, n - 1, v).plus(
            corner_share(positions, indices, n - 1, 0, v),
        ).plus(corner_share(positions, indices, n - 1, 1, v)).plus(
            corner_share(positions, indices, n - 1, 2, v),
        )
    }
}

/// The normal of vertex `v`: the normalized sum of the normals of the faces
/// around it, each weighted by its area.
pub open spec fn vertex_normal(positions: Seq<Vector3>, indices: Seq<u16>, v: int) -> Vector3 {
    normalize(normal_sum(positions, indices, indices.len() as int / 3, v))
}

/// The most that one component of a face normal can be.
pub open spec fn cross_limit() -> int {
    2 * (2 * COORD_LIMIT) * (2 * COORD_LIMIT)
}

#[derive(Clone, Copy)]
struct Wide3 {
    x: i128,
    y: i128,
    z: i128,
}

impl Wide3 {
    spec fn ints(self) -> Int3 {
        Int3 { x: self.x as int, y: self.y as int, z: self.z as int }
    }

    spec fn within(self, bound: int) -> bool {
        &&& -bound <= self.x <= bound
        &&& -bound <= self.y <= bound
        &&& -bound <= self.z <= bound
    }
}

proof fn lemma_product_bound(a: int, b: int)
    requires
        -2 * COORD_LIMIT <= a <= 2 * COORD_LIMIT,
        -2 * COORD_LIMIT <= b <= 2 * COORD_LIMIT,
    ensures
        -(2 * COORD_LIMIT) * (2 * COORD_LIMIT) <= a * b <= (2 * COORD_LIMIT) * (2 * COORD_LIMIT),
        (2 * COORD_LIMIT) * (2 * COORD_LIMIT) == 4_194_304_000_000_000_000,
{
    assert(-4_194_304_000_000_000_000 <= a * b <= 4_194_304_000_000_000_000) by (nonlinear_arith)
        requires
            -2_048_000_000 <= a <= 2_048_000_000,
            -2_048_000_000 <= b <= 2_048_000_000,
    ;
}

/// The cross product of the two edge vectors of a triangle.
fn face_normal_exec(a: Vector3, b: Vector3, c: Vector3) -> (n: Wide3)
    requires
        within_limit(a),
        within_limit(b),
        within_limit(c),
    ensures
        n.ints() == b.ints().minus(a.ints()).cross(c.ints().minus(a.ints())),
        n.within(cross_limit()),
{
    let ux = b.x as i128 - a.x as i128;
    let uy = b.y as i128 - a.y as i128;
    let uz = b.z as i128 - a.z as i128;
    let vx = c.x as i128 - a.x as i128;
    let vy = c.y as i128 - a.y as i128;
    let vz = c.z as i128 - a.z as i128;
    proof {
        lemma_product_bound(uy as int, vz as int);
        lemma_product_bound(uz as int, vy as int);
        lemma_product_bound(uz as int, vx as int);
        lemma_product_bound(ux as int, vz as int);
        lemma_product_bound(ux as int, vy as int);
        lemma_product_bound(uy as int, vx as int);
    }
    Wide3 { x: uy * vz - uz * vy, y: uz * vx - ux * vz, z: ux * vy - uy * vx }
}

/// Adds a face normal to the sum kept for vertex `v`.
fn add_share(sums: &mut Vec<Wide3>, v: usize, n: Wide3, Ghost(bound): Ghost<int>)
    requires
        v < old(sums)@.len(),
        n.within(cross_limit()),
        0 <= bound,
        bound + cross_limit() <= i128::MAX,
        forall|i: int| 0 <= i < old(sums)@.len() ==> (#[trigger] old(sums)@[i]).within(bound),
    ensures
        final(sums)@.len() == old(sums)@.len(),
        forall|i: int|
            0 <= i < old(sums)@.len() ==> (#[trigger] final(sums)@[i]).within(
                bound + cross_limit(),
            ),
        forall|i: int|
            0 <= i < old(sums)@.len() ==> (#[trigger] final(sums)@[i]).ints() == old(
                sums,
            )@[i].ints().plus(share(i == v, n.ints())),
{
    let cur = sums[v];
    sums.set(v, Wide3 { x: cur.x + n.x, y: cur.y + n.y, z: cur.z + n.z });
}

/// Adds a face normal to the sums kept for the face's three corners.
fn add_face(
    sums: &mut Vec<Wide3>,
    i0: usize,
    i1: usize,
    i2: usize,
    n: Wide3,
    Ghost(bound): Ghost<int>,
)
    requires
        i0 < old(sums)@.len(),
        i1 < old(sums)@.len(),
        i2 < old(sums)@.len(),
        n.within(cross_limit()),
        0 <= bound,
        bound + 3 * cross_limit() <= i128::MAX,
        forall|i: int| 0 <= i < old(sums)@.len() ==> (#[trigger] old(sums)@[i]).within(bound),
    ensures
        final(sums)@.len() == old(sums)@.len(),
        forall|i: int|
            0 <= i < old(sums)@.len() ==> (#[trigger] final(sums)@[i]).within(
                bound + 3 * cross_limit(),
            ),
        forall|i: int|
            0 <= i < old(sums)@.len() ==> (#[trigger] final(sums)@[i]).ints() == old(
                sums,
            )@[i].ints().plus(share(i == i0, n.ints())).plus(share(i == i1, n.ints())).plus(
                share(i == i2, n.ints()),
            ),
{
    proof {
        lemma_product_bound(0, 0);
    }
    add_share(sums, i0, n, Ghost(bound));
    add_share(sums, i1, n, Ghost(bound + cross_limit()));
    add_share(sums, i2, n, Ghost(bound + 2 * cross_limit()));
}

/// Computes one normal for each vertex of a triangle mesh.
///
/// Every three indices name the corners of one face. The cross product of a
/// face's two edge vectors is added to the sums of its three corners, so that
/// a larger face weighs more; each sum is then scaled to unit length. A
/// vertex of no face, or one whose faces cancel, gets `(0, 1, 0)`.
pub fn calculate_normals(positions: &[Vector3], indices: &[u16]) -> (normals: Vec<Vector3>)
    requires
        forall|i: int| 0 <= i < positions@.len() ==> within_limit(#[trigger] positions@[i]),
        forall|k: int|
            0 <= k < 3 * (indices@.len() as int / 3) ==> (#[trigger] indices@[k]) < positions@.len(),
    ensures
        normals@.len() == positions@.len(),
        forall|v: int|
            0 <= v < positions@.len() ==> #[trigger] normals@[v] == vertex_normal(
                positions@,
                indices@,
                v,
            ),
{
    let count = positions.len();
    let mut sums: Vec<Wide3> = Vec::new();
    let mut v: usize = 0;
    while v < count
        invariant
            v <= count,
            sums@.len() == v,
            forall|i: int| 0 <= i < v ==> (#[trigger] sums@[i]) == (Wide3 { x: 0, y: 0, z: 0 }),
        decreases count - v,
    {
        sums.push(Wide3 { x: 0, y: 0, z: 0 });
        v += 1;
    }
    let num_faces = indices.len() / 3;
    let mut face: usize = 0;
    proof {
        lemma_product_bound(0, 0);
    }
    while face < num_faces
        invariant
            face <= num_faces,
            num_faces == indices@.len() / 3,
            3 * num_faces <= indices@.len() <= usize::MAX,
            count == positions@.len(),
            sums@.len() == count,
            forall|i: int| 0 <= i < positions@.len() ==> within_limit(#[trigger] positions@[i]),
            forall|k: int|
                0 <= k < 3 * num_faces ==> (#[trigger] indices@[k]) < positions@.len(),
            cross_limit() == 8_388_608_000_000_000_000,
            forall|i: int|
                0 <= i < count ==> (#[trigger] sums@[i]).within(3 * face * cross_limit()),
            forall|i: int|
                0 <= i < count ==> (#[trigger] sums@[i]).ints() == normal_sum(
                    positions@,
                    indices@,
                    face as int,
                    i,
                ),
        decreases num_faces - face,
    {
        let i0 = indices[face * 3] as usize;
        let i1 = indices[face * 3 + 1] as usize;
        let i2 = indices[face * 3 + 2] as usize;
        let n = face_normal_exec(positions[i0], positions[i1], positions[i2]);
        let ghost bound = 3 * face * cross_limit();
        assert(0 <= bound && bound + 3 * cross_limit() <= i128::MAX && 3 * (face + 1)
            * cross_limit() == bound + 3 * cross_limit()) by (nonlinear_arith)
            requires
                bound == 3 * face * cross_limit(),
                cross_limit() == 8_388_608_000_000_000_000,
                0 <= face,
                3 * face + 3 <= 0x1_0000_0000_0000_0000,
        ;
        add_face(&mut sums, i0, i1, i2, n, Ghost(bound));
        face += 1;
    }
    let mut normals: Vec<Vector3> = Vec::new();
    let mut v: usize = 0;
    while v < count
        invariant
            v <= count,
            count == positions@.len(),
            sums@.len() == count,
            normals@.len() == v,
            num_faces == indices@.len() / 3,
            3 * num_faces <= indices@.len() <= usize::MAX,
            cross_limit() == 8_388_608_000_000_000_000,
            forall|i: int|
                0 <= i < count ==> (#[trigger] sums@[i]).within(3 * num_faces * cross_limit()),
            forall|i: int|
                0 <= i < count ==> (#[trigger] sums@[i]).ints() == normal_sum(
                    positions@,
                    indices@,
                    num_faces as int,
                    i,
                ),
            forall|i: int|
                0 <= i < v ==> #[trigger] normals@[i] == vertex_normal(positions@, indices@, i),
        decreases count - v,
    {
        let sum = sums[v];
        assert(3 * num_faces * cross_limit() < i128::MAX) by (nonlinear_arith)
            requires
                cross_limit() == 8_388_608_000_000_000_000,
                0 <= 3 * num_faces <= 0x1_0000_0000_0000_0000,
        ;
        normals.push(normalize_exec(sum.x, sum.y, sum.z));
        v += 1;
    }
    normals
}

/// Every vertex normal has the length of one unit, within the tolerance.
pub proof fn lemma_vertex_normal_unit_length(positions: Seq<Vector3>, indices: Seq<u16>, v: int)
    ensures
        ({
            let n = vertex_normal(positions, indices, v).ints();
            (UNIT - NORMAL_TOLERANCE) * (UNIT - NORMAL_TOLERANCE) <= n.norm_squared() <= (UNIT
                + NORMAL_TOLERANCE) * (UNIT + NORMAL_TOLERANCE)
        }),
{
    lemma_normal_unit_length(normal_sum(positions, indices, indices.len() as int / 3, v));
}

} // verus!
