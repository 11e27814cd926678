use vstd::prelude::*;

verus! {

use vstd::math::abs;

/// Coordinates stay within this bound so that every conversion, distance and
/// line computation fits comfortably in the machine integers.
pub const HEX_BOUND: i32 = 0x800_0000;

/// Offset ("oddr") position: column `x`, row `y`, odd rows shifted right.
#[derive(Debug, Clone, Copy, PartialEq, Eq, Structural)]
pub struct OddrPos {
    pub x: i32,
    pub y: i32,
}

/// Cube position; for a well-formed hex `z == -x + y` always holds.
#[derive(Debug, Clone, Copy, PartialEq, Eq, Structural)]
pub struct CubePos {
    pub x: i32,
    pub y: i32,
    pub z: i32,
}

/// A position on the hex grid, in either of two equivalent representations.
/// Equality compares the canonical offset form, so an `Oddr` hex and the
/// `Cube` hex it converts to are equal.
#[derive(Debug, Clone, Copy)]
pub enum Hex {
    Oddr(OddrPos),
    Cube(CubePos),
}

/// 1 for odd rows, 0 for even rows.
pub open spec fn spec_parity(y: int) -> int {
    if y % 2 == 0 {
        0
    } else {
        1
    }
}

/// Offset to cube: `q = x + (y + parity(y)) / 2`, `r = y`, `z = -q + r`.
/// The dividend is always even, so the division is exact.
pub open spec fn spec_oddr_to_cube(x: int, y: int) -> (int, int, int) {
    let q = x + (y + spec_parity(y)) / 2;
    (q, y, -q + y)
}

/// Cube back to offset: `x = q - (r + parity(r)) / 2`, `y = r`.
pub open spec fn spec_cube_to_oddr(cx: int, cy: int) -> (int, int) {
    (cx - (cy + spec_parity(cy)) / 2, cy)
}

/// The offset coordinates a hex denotes.
pub open spec fn spec_to_oddr(h: Hex) -> (int, int) {
    match h {
        Hex::Oddr(pos) => (pos.x as int, pos.y as int),
        Hex::Cube(pos) => spec_cube_to_oddr(pos.x as int, pos.y as int),
    }
}

/// The cube coordinates a hex denotes.
pub open spec fn spec_to_cube(h: Hex) -> (int, int, int) {
    match h {
        Hex::Oddr(pos) => spec_oddr_to_cube(pos.x as int, pos.y as int),
        Hex::Cube(pos) => (pos.x as int, pos.y as int, pos.z as int),
    }
}

/// Well-formed hexes have bounded coordinates, and a stored cube triple is
/// internally consistent.
pub open spec fn hex_wf(h: Hex) -> bool {
    match h {
        Hex::Oddr(pos) => -HEX_BOUND <= pos.x <= HEX_BOUND && -HEX_BOUND <= pos.y <= HEX_BOUND,
        Hex::Cube(pos) => -HEX_BOUND <= pos.x <= HEX_BOUND && -HEX_BOUND <= pos.y <= HEX_BOUND
            && pos.z == -pos.x + pos.y,
    }
}

/// Hex distance: half the Manhattan distance of the cube coordinates.
pub open spec fn spec_dist(a: Hex, b: Hex) -> int {
    let ca = spec_to_cube(a);
    let cb = spec_to_cube(b);
    (abs(ca.0 - cb.0) as int + abs(ca.1 - cb.1) as int + abs(ca.2 - cb.2) as int) / 2
}

/// Rounding of the rational `p / n` to the nearest integer, halves away from
/// zero; `n` must be positive.
pub open spec fn round_div(p: int, n: int) -> int {
    if p >= 0 {
        (2 * p + n) / (2 * n)
    } else {
        -((2 * (-p) + n) / (2 * n))
    }
}

/// The hex at step `i` of the line from `a` to `b`: the cube coordinates are
/// interpolated at `i / dist(a, b)`, rounded to the nearest hex, and the
/// coordinate with the largest rounding error is recomputed from the others.
/// For `a == b` the line degenerates to the single starting hex.
pub open spec fn spec_line_point(a: Hex, b: Hex, i: int) -> Hex {
    let n = spec_dist(a, b);
    let ca = spec_to_cube(a);
    let cb = spec_to_cube(b);
    if n == 0 {
        Hex::Cube(CubePos { x: ca.0 as i32, y: ca.1 as i32, z: ca.2 as i32 })
    } else {
        let px = ca.0 * (n - i) + cb.0 * i;
        let py = ca.1 * (n - i) + cb.1 * i;
        let pz = ca.2 * (n - i) + cb.2 * i;
        let rx = round_div(px, n);
        let ry = round_div(py, n);
        let rz = round_div(pz, n);
        let ex = abs(rx * n - px);
        let ey = abs(ry * n - py);
        let ez = abs(rz * n - pz);
        let cx = if ex > -ey && ex > ez {
            ry - rz
        } else {
            rx
        };
        let cy = if !(ex > -ey && ex > ez) && -ey > ez {
            rx + rz
        } else {
            ry
        };
        Hex::Cube(CubePos { x: cx as i32, y: cy as i32, z: (-cx + cy) as i32 })
    }
}

/// The offset-to-cube-to-offset round trip is the identity on all integer
/// coordinates.
pub proof fn lemma_oddr_cube_round_trip(x: int, y: int)
    ensures
        spec_cube_to_oddr(spec_oddr_to_cube(x, y).0, spec_oddr_to_cube(x, y).1) == (x, y),
{
}

/// Hex distance is symmetric.
pub proof fn lemma_dist_symmetric(a: Hex, b: Hex)
    ensures
        spec_dist(a, b) == spec_dist(b, a),
{
}

/// For a well-formed hex the offset form determines the cube form: two
/// well-formed hexes with equal offset coordinates are the same position.
pub proof fn lemma_wf_cube_of_oddr(h: Hex)
    requires
        hex_wf(h),
    ensures
        spec_to_cube(h) == spec_oddr_to_cube(spec_to_oddr(h).0, spec_to_oddr(h).1),
{
}

/// Distance zero means the same position: two well-formed hexes are zero
/// steps apart exactly when they denote the same offset coordinates.
pub proof fn lemma_dist_zero(a: Hex, b: Hex)
    requires
        hex_wf(a),
        hex_wf(b),
    ensures
        (spec_dist(a, b) == 0) <==> (spec_to_oddr(a) == spec_to_oddr(b)),
{
    let ca = spec_to_cube(a);
    let cb = spec_to_cube(b);
    let total = abs(ca.0 - cb.0) as int + abs(ca.1 - cb.1) as int + abs(ca.2 - cb.2) as int;
    lemma_wf_cube_of_oddr(a);
    lemma_wf_cube_of_oddr(b);
    lemma_oddr_cube_round_trip(spec_to_oddr(a).0, spec_to_oddr(a).1);
    lemma_oddr_cube_round_trip(spec_to_oddr(b).0, spec_to_oddr(b).1);
    if spec_to_oddr(a) == spec_to_oddr(b) {
        assert(ca == cb);
        assert(total == 0);
    }
    if spec_dist(a, b) == 0 {
        if ca.0 != cb.0 || ca.1 != cb.1 {
            assert(total >= 2);
            vstd::arithmetic::div_mod::lemma_div_is_ordered(2, total, 2);
            vstd::arithmetic::div_mod::lemma_fundamental_div_mod_converse_div(2, 2, 1, 0);
            assert(false);
        }
        assert(ca == cb);
        assert(spec_to_oddr(a) == spec_cube_to_oddr(ca.0, ca.1));
        assert(spec_to_oddr(b) == spec_cube_to_oddr(cb.0, cb.1));
    }
}

/// Rounding an exactly representable rational returns its integer value.
proof fn lemma_round_div_exact(v: int, n: int)
    requires
        1 <= n,
    ensures
        round_div(v * n, n) == v,
{
    if v >= 0 {
        assert(2 * (v * n) + n == (2 * n) * v + n) by (nonlinear_arith);
        vstd::arithmetic::div_mod::lemma_fundamental_div_mod_converse_div(
            2 * (v * n) + n,
            2 * n,
            v,
            n,
        );
    } else {
        assert(v * n < 0) by (nonlinear_arith)
            requires
                v < 0,
                1 <= n,
        ;
        assert(2 * (-(v * n)) + n == (2 * n) * (-v) + n) by (nonlinear_arith);
        vstd::arithmetic::div_mod::lemma_fundamental_div_mod_converse_div(
            2 * (-(v * n)) + n,
            2 * n,
            -v,
            n,
        );
    }
}

/// Endpoint inclusion: the first point of a line is its start and the last
/// its end, whatever the two well-formed hexes are.
pub proof fn lemma_line_endpoints(a: Hex, b: Hex)
    requires
        hex_wf(a),
        hex_wf(b),
    ensures
        spec_to_oddr(spec_line_point(a, b, 0)) == spec_to_oddr(a),
        spec_to_oddr(spec_line_point(a, b, spec_dist(a, b))) == spec_to_oddr(b),
{
    let n = spec_dist(a, b);
    let ca = spec_to_cube(a);
    let cb = spec_to_cube(b);
    lemma_cube_bounds(a);
    lemma_cube_bounds(b);
    lemma_wf_cube_of_oddr(a);
    lemma_wf_cube_of_oddr(b);
    lemma_oddr_cube_round_trip(spec_to_oddr(a).0, spec_to_oddr(a).1);
    lemma_oddr_cube_round_trip(spec_to_oddr(b).0, spec_to_oddr(b).1);
    lemma_dist_bounds(a, b);
    if n == 0 {
        lemma_dist_zero(a, b);
        assert(spec_to_oddr(spec_line_point(a, b, 0)) == spec_cube_to_oddr(ca.0, ca.1));
    } else {
        lemma_round_div_exact(ca.0, n);
        lemma_round_div_exact(ca.1, n);
        lemma_round_div_exact(ca.2, n);
        lemma_round_div_exact(cb.0, n);
        lemma_round_div_exact(cb.1, n);
        lemma_round_div_exact(cb.2, n);
        assert(ca.0 * (n - 0) + cb.0 * 0 == ca.0 * n) by (nonlinear_arith);
        assert(ca.1 * (n - 0) + cb.1 * 0 == ca.1 * n) by (nonlinear_arith);
        assert(ca.2 * (n - 0) + cb.2 * 0 == ca.2 * n) by (nonlinear_arith);
        assert(ca.0 * (n - n) + cb.0 * n == cb.0 * n) by (nonlinear_arith);
        assert(ca.1 * (n - n) + cb.1 * n == cb.1 * n) by (nonlinear_arith);
        assert(ca.2 * (n - n) + cb.2 * n == cb.2 * n) by (nonlinear_arith);
        assert(spec_to_oddr(spec_line_point(a, b, 0)) == spec_cube_to_oddr(ca.0, ca.1));
        assert(spec_to_oddr(spec_line_point(a, b, n)) == spec_cube_to_oddr(cb.0, cb.1));
    }
}

/// The cube coordinates of a well-formed hex are bounded.
pub proof fn lemma_cube_bounds(h: Hex)
    requires
        hex_wf(h),
    ensures
        -0x2000_0000 <= spec_to_cube(h).0 <= 0x2000_0000,
        -0x2000_0000 <= spec_to_cube(h).1 <= 0x2000_0000,
        -0x2000_0000 <= spec_to_cube(h).2 <= 0x2000_0000,
{
}

/// The distance of two well-formed hexes is a bounded non-negative number.
pub proof fn lemma_dist_bounds(a: Hex, b: Hex)
    requires
        hex_wf(a),
        hex_wf(b),
    ensures
        0 <= spec_dist(a, b) <= 0x6000_0000,
{
    lemma_cube_bounds(a);
    lemma_cube_bounds(b);
}

impl PartialEq for Hex {
    fn eq(&self, other: &Hex) -> (r: bool) {
        let a = oddr_wide(self);
        let b = oddr_wide(other);
        a.0 == b.0 && a.1 == b.1
    }
}

impl vstd::std_specs::cmp::PartialEqSpecImpl for Hex {
    open spec fn obeys_eq_spec() -> bool {
        true
    }

    open spec fn eq_spec(&self, other: &Hex) -> bool {
        spec_to_oddr(*self) == spec_to_oddr(*other)
    }
}

impl Eq for Hex {

}

/// Offset coordinates in 64-bit arithmetic, defined for every hex value.
fn oddr_wide(h: &Hex) -> (r: (i64, i64))
    ensures
        r.0 == spec_to_oddr(*h).0,
        r.1 == spec_to_oddr(*h).1,
{
    match h {
        Hex::Oddr(pos) => (pos.x as i64, pos.y as i64),
        Hex::Cube(pos) => {
            let y: i64 = pos.y as i64;
            let pad: i64 = if y % 2 != 0 {
                1
            } else {
                0
            };
            assert(pad == spec_parity(y as int));
            ((pos.x as i64) - (y + pad) / 2, y)
        },
    }
}

impl Hex {
    /// Builds the hex at the given offset coordinates.
    pub fn from_oddr(x: i32, y: i32) -> (h: Hex)
        requires
            -HEX_BOUND <= x <= HEX_BOUND,
            -HEX_BOUND <= y <= HEX_BOUND,
        ensures
            h == Hex::Oddr(OddrPos { x, y }),
            hex_wf(h),
            spec_to_oddr(h) == (x as int, y as int),
    {
        Hex::Oddr(OddrPos { x, y })
    }

    /// Builds the hex with the given first two cube coordinates; the third
    /// is determined by them.
    pub fn from_cube(x: i32, y: i32) -> (h: Hex)
        requires
            -HEX_BOUND <= x <= HEX_BOUND,
            -HEX_BOUND <= y <= HEX_BOUND,
        ensures
            h == Hex::Cube(CubePos { x, y, z: (-x + y) as i32 }),
            hex_wf(h),
            spec_to_cube(h) == (x as int, y as int, -x + y as int),
    {
        Hex::Cube(CubePos { x, y, z: -x + y })
    }

    /// The offset form of this hex.
    pub fn to_oddr(self) -> (r: OddrPos)
        requires
            hex_wf(self),
        ensures
            r.x == spec_to_oddr(self).0,
            r.y == spec_to_oddr(self).1,
            -0x2000_0000 <= r.x <= 0x2000_0000,
            -0x2000_0000 <= r.y <= 0x2000_0000,
    {
        match self {
            Hex::Oddr(pos) => pos,
            Hex::Cube(pos) => {
                let pad: i32 = if pos.y % 2 != 0 {
                    1
                } else {
                    0
                };
                assert(pad == spec_parity(pos.y as int));
                OddrPos { x: pos.x - (pos.y + pad) / 2, y: pos.y }
            },
        }
    }

    /// The cube form of this hex.
    pub fn to_cube(self) -> (c: CubePos)
        requires
            hex_wf(self),
        ensures
            c.x == spec_to_cube(self).0,
            c.y == spec_to_cube(self).1,
            c.z == spec_to_cube(self).2,
            -0x2000_0000 <= c.x <= 0x2000_0000,
            -0x2000_0000 <= c.y <= 0x2000_0000,
            -0x2000_0000 <= c.z <= 0x2000_0000,
    {
        match self {
            Hex::Cube(pos) => pos,
            Hex::Oddr(pos) => {
                let pad: i32 = if pos.y % 2 != 0 {
                    1
                } else {
                    0
                };
                assert(pad == spec_parity(pos.y as int));
                let q: i32 = pos.x + (pos.y + pad) / 2;
                CubePos { x: q, y: pos.y, z: -q + pos.y }
            },
        }
    }

    /// The number of steps between two hexes.
    pub fn dist(&self, hex: Hex) -> (d: i32)
        requires
            hex_wf(*self),
            hex_wf(hex),
        ensures
            d == spec_dist(*self, hex),
            0 <= d <= 0x6000_0000,
    {
        let ca = self.to_cube();
        let cb = hex.to_cube();
        let m: i64 = abs_i64((ca.x as i64) - (cb.x as i64)) + abs_i64((ca.y as i64) - (cb.y as i64))
            + abs_i64((ca.z as i64) - (cb.z as i64));
        (m / 2) as i32
    }

    /// The hexes of the straight line from `self` to `end`, both included;
    /// the result holds `dist + 1` hexes, each given by `spec_line_point`.
    pub fn line(self, end: Hex) -> (r: Vec<Hex>)
        requires
            hex_wf(self),
            hex_wf(end),
        ensures
            r@.len() == spec_dist(self, end) + 1,
            forall|i: int| 0 <= i < r@.len() ==> r@[i] == spec_line_point(self, end, i),
    {
        let n: i32 = self.dist(end);
        let ca = self.to_cube();
        let cb = end.to_cube();
        let mut out: Vec<Hex> = Vec::new();
        if n == 0 {
            out.push(Hex::Cube(ca));
            return out;
        }
        let n64: i64 = n as i64;
        let ax: i64 = ca.x as i64;
        let ay: i64 = ca.y as i64;
        let az: i64 = ca.z as i64;
        let bx: i64 = cb.x as i64;
        let by: i64 = cb.y as i64;
        let bz: i64 = cb.z as i64;
        let mut i: i32 = 0;
        while i <= n
            invariant
                hex_wf(self),
                hex_wf(end),
                1 <= n <= 0x6000_0000,
                n == spec_dist(self, end),
                n64 == n,
                ax == spec_to_cube(self).0,
                ay == spec_to_cube(self).1,
                az == spec_to_cube(self).2,
                bx == spec_to_cube(end).0,
                by == spec_to_cube(end).1,
                bz == spec_to_cube(end).2,
                -0x2000_0000 <= ax <= 0x2000_0000,
                -0x2000_0000 <= ay <= 0x2000_0000,
                -0x2000_0000 <= az <= 0x2000_0000,
                -0x2000_0000 <= bx <= 0x2000_0000,
                -0x2000_0000 <= by <= 0x2000_0000,
                -0x2000_0000 <= bz <= 0x2000_0000,
                0 <= i <= n + 1,
                out@.len() == i,
                forall|j: int| 0 <= j < i ==> out@[j] == spec_line_point(self, end, j),
            decreases n + 1 - i,
        {
            let i64v: i64 = i as i64;
            proof {
                lemma_mul_bound(ax as int, n64 - i64v, 0x2000_0000, 0x6000_0000);
                lemma_mul_bound(ay as int, n64 - i64v, 0x2000_0000, 0x6000_0000);
                lemma_mul_bound(az as int, n64 - i64v, 0x2000_0000, 0x6000_0000);
                lemma_mul_bound(bx as int, i64v as int, 0x2000_0000, 0x6000_0000);
                lemma_mul_bound(by as int, i64v as int, 0x2000_0000, 0x6000_0000);
                lemma_mul_bound(bz as int, i64v as int, 0x2000_0000, 0x6000_0000);
                lemma_lerp_bound(ax as int, bx as int, i as int, n as int, 0x2000_0000);
                lemma_lerp_bound(ay as int, by as int, i as int, n as int, 0x2000_0000);
                lemma_lerp_bound(az as int, bz as int, i as int, n as int, 0x2000_0000);
            }
            let px: i64 = ax * (n64 - i64v) + bx * i64v;
            let py: i64 = ay * (n64 - i64v) + by * i64v;
            let pz: i64 = az * (n64 - i64v) + bz * i64v;
            let rx: i64 = round_div_i64(px, n64);
            let ry: i64 = round_div_i64(py, n64);
            let rz: i64 = round_div_i64(pz, n64);
            proof {
                lemma_round_div_bound(px as int, n as int, 0x2000_0000);
                lemma_round_div_bound(py as int, n as int, 0x2000_0000);
                lemma_round_div_bound(pz as int, n as int, 0x2000_0000);
                lemma_mul_bound(rx as int, n64 as int, 0x2000_0000, 0x6000_0000);
                lemma_mul_bound(ry as int, n64 as int, 0x2000_0000, 0x6000_0000);
                lemma_mul_bound(rz as int, n64 as int, 0x2000_0000, 0x6000_0000);
            }
            let ex: i64 = abs_i64(rx * n64 - px);
            let ey: i64 = abs_i64(ry * n64 - py);
            let ez: i64 = abs_i64(rz * n64 - pz);
            let corrected: (i64, i64) = if ex > -ey && ex > ez {
                (ry - rz, ry)
            } else if -ey > ez {
                (rx, rx + rz)
            } else {
                (rx, ry)
            };
            let fx: i64 = corrected.0;
            let fy: i64 = corrected.1;
            out.push(Hex::Cube(CubePos { x: fx as i32, y: fy as i32, z: (-fx + fy) as i32 }));
            assert(out@[i as int] == spec_line_point(self, end, i as int));
            i = i + 1;
        }
        out
    }
}

/// Absolute value in 64-bit arithmetic.
fn abs_i64(v: i64) -> (r: i64)
    requires
        i64::MIN < v,
    ensures
        r == abs(v as int),
{
    if v >= 0 {
        v
    } else {
        -v
    }
}

/// Executable form of `round_div`.
fn round_div_i64(p: i64, n: i64) -> (r: i64)
    requires
        1 <= n <= 0x1_0000_0000,
        -0x3000_0000_0000_0000 <= p <= 0x3000_0000_0000_0000,
    ensures
        r == round_div(p as int, n as int),
{
    if p >= 0 {
        (2 * p + n) / (2 * n)
    } else {
        -((2 * (-p) + n) / (2 * n))
    }
}

/// A product of values within `ma` and `mb` stays within `ma * mb`.
proof fn lemma_mul_bound(a: int, b: int, ma: int, mb: int)
    requires
        0 <= ma,
        0 <= mb,
        -ma <= a <= ma,
        -mb <= b <= mb,
    ensures
        -(ma * mb) <= a * b <= ma * mb,
{
    assert(-(ma * mb) <= a * b <= ma * mb) by (nonlinear_arith)
        requires
            0 <= ma,
            0 <= mb,
            -ma <= a <= ma,
            -mb <= b <= mb,
    ;
}

/// An interpolated numerator stays within `m * n` when both endpoints are
/// within `m`.
proof fn lemma_lerp_bound(a: int, b: int, i: int, n: int, m: int)
    requires
        0 <= i <= n,
        0 <= m,
        -m <= a <= m,
        -m <= b <= m,
    ensures
        -(m * n) <= a * (n - i) + b * i <= m * n,
{
    assert(-(m * n) <= a * (n - i) + b * i <= m * n) by (nonlinear_arith)
        requires
            0 <= i <= n,
            0 <= m,
            -m <= a <= m,
            -m <= b <= m,
    ;
}

/// Rounding a rational with numerator within `m * n` yields a value within
/// `m`.
proof fn lemma_round_div_bound(p: int, n: int, m: int)
    requires
        1 <= n,
        0 <= m,
        -(m * n) <= p <= m * n,
    ensures
        -m <= round_div(p, n) <= m,
{
    let top = 2 * (m * n) + n;
    assert(2 * (m * n) + n == (2 * n) * m + n) by (nonlinear_arith);
    assert(top / (2 * n) == m) by {
        vstd::arithmetic::div_mod::lemma_fundamental_div_mod_converse_div(top, 2 * n, m, n);
    }
    if p >= 0 {
        vstd::arithmetic::div_mod::lemma_div_is_ordered(2 * p + n, top, 2 * n);
        vstd::arithmetic::div_mod::lemma_div_pos_is_pos(2 * p + n, 2 * n);
    } else {
        vstd::arithmetic::div_mod::lemma_div_is_ordered(2 * (-p) + n, top, 2 * n);
        vstd::arithmetic::div_mod::lemma_div_pos_is_pos(2 * (-p) + n, 2 * n);
    }
}

} // verus!
