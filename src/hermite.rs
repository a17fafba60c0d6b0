use vstd::prelude::*;
use vstd::arithmetic::div_mod::*;
use vstd::arithmetic::mul::*;
use crate::grid::LIMIT;

verus! {

/// The largest number of parameter steps across a patch that the exact 128-bit
/// evaluation admits.
pub const MAX_STEPS: u64 = 32768;

pub open spec fn cube(d: int) -> int {
    d * d * d
}

/// Entry `k` of the cubic parameter vector `(t³, t², t, 1)` at `t / d`, scaled
/// by `d³` so that it is an integer: `(t³, t²d, td², d³)`.
pub open spec fn cubic(t: int, d: int, k: int) -> int {
    if k == 0 {
        t * t * t
    } else if k == 1 {
        t * t * d
    } else if k == 2 {
        t * d * d
    } else {
        d * d * d
    }
}

/// Entry `k` of `Hᵗ · x`, where `H` is the Hermite basis matrix, row-major
/// `[2 -3 0 1; -2 3 0 0; 1 -2 1 0; 1 -1 0 0]`.
pub open spec fn mix(x0: int, x1: int, x2: int, x3: int, k: int) -> int {
    if k == 0 {
        2 * x0 - 2 * x1 + x2 + x3
    } else if k == 1 {
        -3 * x0 + 3 * x1 - 2 * x2 - x3
    } else if k == 2 {
        x2
    } else {
        x0
    }
}

/// Entry `(a, c)` of `Gᵗ · H`: `Hᵗ` applied to column `a` of `G`.
pub open spec fn coeff_t_basis(g: [[i64; 4]; 4], a: int, c: int) -> int {
    mix(g[0][a] as int, g[1][a] as int, g[2][a] as int, g[3][a] as int, c)
}

/// Entry `(r, c)` of `M = Hᵗ · Gᵗ · H` for the coefficient matrix `G`.
pub open spec fn combined(g: [[i64; 4]; 4], r: int, c: int) -> int {
    mix(
        coeff_t_basis(g, 0, c),
        coeff_t_basis(g, 1, c),
        coeff_t_basis(g, 2, c),
        coeff_t_basis(g, 3, c),
        r,
    )
}

/// Entry `r` of `M · cubic(i / d)`, scaled by `d³`.
pub open spec fn applied(g: [[i64; 4]; 4], i: int, d: int, r: int) -> int {
    combined(g, r, 0) * cubic(i, d, 0) + combined(g, r, 1) * cubic(i, d, 1) + combined(g, r, 2)
        * cubic(i, d, 2) + combined(g, r, 3) * cubic(i, d, 3)
}

/// `(M · cubic(u)) · cubic(v)` at `u = i / d`, `v = j / d`, scaled by `d⁶`.
#[verifier::opaque]
pub open spec fn field_num(g: [[i64; 4]; 4], i: int, j: int, d: int) -> int {
    applied(g, i, d, 0) * cubic(j, d, 0) + applied(g, i, d, 1) * cubic(j, d, 1) + applied(
        g,
        i,
        d,
        2,
    ) * cubic(j, d, 2) + applied(g, i, d, 3) * cubic(j, d, 3)
}

/// The field of coefficient matrix `G` at `(i / d, j / d)` in fixed point,
/// rounded down.
pub open spec fn field_at(g: [[i64; 4]; 4], i: int, j: int, d: int) -> int {
    field_num(g, i, j, d) / (cube(d) * cube(d))
}

/// Every entry of `M` lies within `81 * LIMIT` of zero.
proof fn lemma_combined_bound(g: [[i64; 4]; 4], r: int, c: int)
    requires
        coeffs_bounded(g),
        0 <= r < 4,
        0 <= c < 4,
    ensures
        -81 * LIMIT <= combined(g, r, c) <= 81 * LIMIT,
{
    assert(-LIMIT <= g[0][0] <= LIMIT && -LIMIT <= g[0][1] <= LIMIT && -LIMIT <= g[0][2] <= LIMIT
        && -LIMIT <= g[0][3] <= LIMIT);
    assert(-LIMIT <= g[1][0] <= LIMIT && -LIMIT <= g[1][1] <= LIMIT && -LIMIT <= g[1][2] <= LIMIT
        && -LIMIT <= g[1][3] <= LIMIT);
    assert(-LIMIT <= g[2][0] <= LIMIT && -LIMIT <= g[2][1] <= LIMIT && -LIMIT <= g[2][2] <= LIMIT
        && -LIMIT <= g[2][3] <= LIMIT);
    assert(-LIMIT <= g[3][0] <= LIMIT && -LIMIT <= g[3][1] <= LIMIT && -LIMIT <= g[3][2] <= LIMIT
        && -LIMIT <= g[3][3] <= LIMIT);
    if r == 0 {
        if c == 0 {
        } else if c == 1 {
        } else if c == 2 {
        } else if c == 3 {
        }
    } else if r == 1 {
        if c == 0 {
        } else if c == 1 {
        } else if c == 2 {
        } else if c == 3 {
        }
    } else if r == 2 {
        if c == 0 {
        } else if c == 1 {
        } else if c == 2 {
        } else if c == 3 {
        }
    } else if r == 3 {
        if c == 0 {
        } else if c == 1 {
        } else if c == 2 {
        } else if c == 3 {
        }
    }
}

/// Every entry of a coefficient matrix lies within `LIMIT` of zero.
pub open spec fn coeffs_bounded(g: [[i64; 4]; 4]) -> bool {
    forall|a: int, b: int|
        0 <= a < 4 && 0 <= b < 4 ==> -LIMIT <= #[trigger] g[a][b] <= LIMIT
}

proof fn lemma_mul_abs_bound(a: int, b: int, x: int, y: int)
    requires
        -x <= a <= x,
        0 <= b <= y,
    ensures
        -(x * y) <= a * b <= x * y,
{
    assert(-(x * y) <= a * b <= x * y) by (nonlinear_arith)
        requires
            -x <= a <= x,
            0 <= b <= y,
    ;
}

proof fn lemma_cubic_bounds(t: int, d: int)
    requires
        0 <= t <= d,
    ensures
        0 <= t * t * t <= cube(d),
        0 <= t * t * d <= cube(d),
        0 <= t * d * d <= cube(d),
{
    assert(0 <= t * t <= d * d && 0 <= t * d <= d * d) by (nonlinear_arith)
        requires
            0 <= t <= d,
    ;
    assert(0 <= t * t * t <= d * d * d && 0 <= t * t * d <= d * d * d) by (nonlinear_arith)
        requires
            0 <= t <= d,
            0 <= t * t <= d * d,
    ;
    assert(0 <= t * d * d <= d * d * d) by (nonlinear_arith)
        requires
            0 <= t <= d,
            0 <= t * d <= d * d,
    ;
}

/// `Hᵗ · x` for a column vector `x`.
fn hermite_mix(x0: i128, x1: i128, x2: i128, x3: i128) -> (r: [i128; 4])
    requires
        -0x1_0000_0000_0000 <= x0 <= 0x1_0000_0000_0000,
        -0x1_0000_0000_0000 <= x1 <= 0x1_0000_0000_0000,
        -0x1_0000_0000_0000 <= x2 <= 0x1_0000_0000_0000,
        -0x1_0000_0000_0000 <= x3 <= 0x1_0000_0000_0000,
    ensures
        r[0] == 2 * x0 - 2 * x1 + x2 + x3,
        r[1] == 3 * x1 - 3 * x0 - 2 * x2 - x3,
        r[2] == x2,
        r[3] == x0,
{
    let r0: i128 = 2 * x0 - 2 * x1 + x2 + x3;
    let r1: i128 = 3 * x1 - 3 * x0 - 2 * x2 - x3;
    [r0, r1, x2, x0]
}

/// `M = Hᵗ · Gᵗ · H`, computed as `Hᵗ · (Gᵗ · H)`.
pub fn combined_matrix(g: &[[i64; 4]; 4]) -> (m: [[i128; 4]; 4])
    requires
        coeffs_bounded(*g),
    ensures
        forall|r: int, c: int|
            0 <= r < 4 && 0 <= c < 4 ==> {
                &&& #[trigger] m[r][c] == combined(*g, r, c)
                &&& -81 * LIMIT <= m[r][c] <= 81 * LIMIT
            },
{
    assert(-LIMIT <= g[0][0] <= LIMIT && -LIMIT <= g[0][1] <= LIMIT && -LIMIT <= g[0][2] <= LIMIT
        && -LIMIT <= g[0][3] <= LIMIT);
    assert(-LIMIT <= g[1][0] <= LIMIT && -LIMIT <= g[1][1] <= LIMIT && -LIMIT <= g[1][2] <= LIMIT
        && -LIMIT <= g[1][3] <= LIMIT);
    assert(-LIMIT <= g[2][0] <= LIMIT && -LIMIT <= g[2][1] <= LIMIT && -LIMIT <= g[2][2] <= LIMIT
        && -LIMIT <= g[2][3] <= LIMIT);
    assert(-LIMIT <= g[3][0] <= LIMIT && -LIMIT <= g[3][1] <= LIMIT && -LIMIT <= g[3][2] <= LIMIT
        && -LIMIT <= g[3][3] <= LIMIT);
    // rows of Gᵗ · H
    let x0 = hermite_mix(g[0][0] as i128, g[1][0] as i128, g[2][0] as i128, g[3][0] as i128);
    let x1 = hermite_mix(g[0][1] as i128, g[1][1] as i128, g[2][1] as i128, g[3][1] as i128);
    let x2 = hermite_mix(g[0][2] as i128, g[1][2] as i128, g[2][2] as i128, g[3][2] as i128);
    let x3 = hermite_mix(g[0][3] as i128, g[1][3] as i128, g[2][3] as i128, g[3][3] as i128);
    // columns of Hᵗ · (Gᵗ · H)
    let c0 = hermite_mix(x0[0], x1[0], x2[0], x3[0]);
    let c1 = hermite_mix(x0[1], x1[1], x2[1], x3[1]);
    let c2 = hermite_mix(x0[2], x1[2], x2[2], x3[2]);
    let c3 = hermite_mix(x0[3], x1[3], x2[3], x3[3]);
    let m = [
        [c0[0], c1[0], c2[0], c3[0]],
        [c0[1], c1[1], c2[1], c3[1]],
        [c0[2], c1[2], c2[2], c3[2]],
        [c0[3], c1[3], c2[3], c3[3]],
    ];
    assert forall|r: int, c: int| 0 <= r < 4 && 0 <= c < 4 implies #[trigger] m[r][c] == combined(
        *g,
        r,
        c,
    ) && -81 * LIMIT <= m[r][c] <= 81 * LIMIT by {
        lemma_combined_bound(*g, r, c);
        if r == 0 {
            if c == 0 {
            } else if c == 1 {
            } else if c == 2 {
            } else if c == 3 {
            }
        } else if r == 1 {
            if c == 0 {
            } else if c == 1 {
            } else if c == 2 {
            } else if c == 3 {
            }
        } else if r == 2 {
            if c == 0 {
            } else if c == 1 {
            } else if c == 2 {
            } else if c == 3 {
            }
        } else if r == 3 {
            if c == 0 {
            } else if c == 1 {
            } else if c == 2 {
            } else if c == 3 {
            }
        }
    }
    m
}

/// The integer cubic parameter vector of `t / d`.
fn cubic_vec(t: u64, d: u64) -> (r: [i128; 4])
    requires
        t <= d <= MAX_STEPS,
    ensures
        forall|k: int| 0 <= k < 4 ==> #[trigger] r[k] == cubic(t as int, d as int, k),
        forall|k: int| 0 <= k < 4 ==> 0 <= #[trigger] r[k] <= cube(d as int),
        cube(d as int) <= 0x2000_0000_0000,
{
    let t = t as i128;
    let d = d as i128;
    proof {
        lemma_cubic_bounds(t as int, d as int);
        assert(0 <= t * t <= 0x4000_0000 && 0 <= t * d <= 0x4000_0000 && 0 <= d * d <= 0x4000_0000
            && d * d * d <= 0x2000_0000_0000) by (nonlinear_arith)
            requires
                0 <= t <= d <= 32768,
        ;
    }
    [t * t * t, t * t * d, t * d * d, d * d * d]
}

/// `a · b` for a vector `a` within `x` of zero and a vector `b` in `[0, y]`.
fn dot(a: [i128; 4], b: [i128; 4], Ghost(x): Ghost<int>, Ghost(y): Ghost<int>) -> (r: i128)
    requires
        forall|k: int| 0 <= k < 4 ==> -x <= #[trigger] a[k] <= x,
        forall|k: int| 0 <= k < 4 ==> 0 <= #[trigger] b[k] <= y,
        4 * (x * y) < 0x4000_0000_0000_0000_0000_0000_0000_0000,
    ensures
        r == a[0] * b[0] + a[1] * b[1] + a[2] * b[2] + a[3] * b[3],
        -(4 * (x * y)) <= r <= 4 * (x * y),
{
    proof {
        lemma_mul_abs_bound(a[0] as int, b[0] as int, x, y);
        lemma_mul_abs_bound(a[1] as int, b[1] as int, x, y);
        lemma_mul_abs_bound(a[2] as int, b[2] as int, x, y);
        lemma_mul_abs_bound(a[3] as int, b[3] as int, x, y);
    }
    let p0 = a[0] * b[0];
    let p1 = a[1] * b[1];
    let p2 = a[2] * b[2];
    let p3 = a[3] * b[3];
    let ghost xy = x * y;
    assert(-xy <= p0 <= xy && -xy <= p1 <= xy && -xy <= p2 <= xy && -xy <= p3 <= xy);
    p0 + p1 + p2 + p3
}

proof fn lemma_quotient_bound(n: int, den: int, q: int, s: int, k: int)
    requires
        den > 0,
        k >= 0,
        n == den * q + s,
        0 <= s < den,
        -(k * den) <= n <= k * den,
    ensures
        -k <= q <= k,
{
    assert(-k <= q <= k) by (nonlinear_arith)
        requires
            den > 0,
            k >= 0,
            n == den * q + s,
            0 <= s < den,
            -(k * den) <= n <= k * den,
    ;
}

/// `n / den` rounded down, for a positive `den`.
fn floor_div(n: i128, den: i128, Ghost(k): Ghost<int>) -> (r: i128)
    requires
        den > 0,
        k >= 0,
        k <= 0x1_0000_0000_0000_0000,
        -(k * den) <= n <= k * den,
        -0x4000_0000_0000_0000_0000_0000_0000_0000 <= n <= 0x4000_0000_0000_0000_0000_0000_0000_0000,
    ensures
        r == n as int / den as int,
        -k <= r <= k,
{
    let r: i128;
    proof {
        lemma_fundamental_div_mod(n as int, den as int);
        lemma_quotient_bound(n as int, den as int, n as int / den as int, n as int % den as int, k);
    }
    if n >= 0 {
        let q: u128 = (n as u128) / (den as u128);
        r = q as i128;
    } else {
        let m: u128 = (-n) as u128;
        let q: u128 = (m + den as u128 - 1) / (den as u128);
        proof {
            lemma_fundamental_div_mod((m + den - 1) as int, den as int);
            let s = (m + den - 1) as int % den as int;
            let qi = (m + den - 1) as int / den as int;
            assert(n == (-qi) * den + (den - 1 - s)) by (nonlinear_arith)
                requires
                    m + den - 1 == den * qi + s,
                    n == -m,
            ;
            lemma_fundamental_div_mod_converse(n as int, den as int, -qi, den - 1 - s);
        }
        r = -(q as i128);
    }
    r
}

/// The field of coefficient matrix `G` at `u = i / d`, `v = j / d`:
/// `(M · cubic(u)) · cubic(v)` with `M = Hᵗ · Gᵗ · H`, computed exactly and
/// rounded down to fixed point.
pub fn evaluate(g: &[[i64; 4]; 4], i: u64, j: u64, d: u64) -> (r: i64)
    requires
        coeffs_bounded(*g),
        0 < d <= MAX_STEPS,
        i <= d,
        j <= d,
    ensures
        r == field_at(*g, i as int, j as int, d as int),
        -0x100_0000_0000 <= r <= 0x100_0000_0000,
{
    proof {
        reveal(field_num);
    }
    let m = combined_matrix(g);
    let cu = cubic_vec(i, d);
    let cv = cubic_vec(j, d);
    let ghost big_d = cube(d as int);
    let ghost x: int = 81 * 16777216int;
    proof {
        assert(big_d > 0 && big_d * big_d > 0) by (nonlinear_arith)
            requires
                d > 0,
                big_d == d * d * d,
        ;
        assert(x * big_d <= x * 0x2000_0000_0000) by (nonlinear_arith)
            requires
                0 <= big_d <= 0x2000_0000_0000,
                x >= 0,
        ;
    }
    let a0 = dot(m[0], cu, Ghost(x), Ghost(big_d));
    let a1 = dot(m[1], cu, Ghost(x), Ghost(big_d));
    let a2 = dot(m[2], cu, Ghost(x), Ghost(big_d));
    let a3 = dot(m[3], cu, Ghost(x), Ghost(big_d));
    let ghost y: int = 4 * (x * big_d);
    proof {
        assert(4 * (y * big_d) < 0x4000_0000_0000_0000_0000_0000_0000_0000 && 4 * (y * big_d)
            == (16 * x) * (big_d * big_d)) by (nonlinear_arith)
            requires
                0 <= big_d <= 0x2000_0000_0000,
                x == 81 * 16777216,
                y == 4 * (x * big_d),
        ;
        lemma_mul_nonnegative(big_d, big_d);
    }
    let n = dot([a0, a1, a2, a3], cv, Ghost(y), Ghost(big_d));
    let den: i128 = cv[3] * cv[3];
    assert(den == big_d * big_d);
    assert(-((16 * x) * den) <= n <= (16 * x) * den);
    let q = floor_div(n, den, Ghost(16 * x));
    q as i64
}

/// `(M · e) · f` for integer parameter vectors `e`, `f`.
pub open spec fn weighted(
    g: [[i64; 4]; 4],
    e0: int,
    e1: int,
    e2: int,
    e3: int,
    f0: int,
    f1: int,
    f2: int,
    f3: int,
) -> int {
    (combined(g, 0, 0) * e0 + combined(g, 0, 1) * e1 + combined(g, 0, 2) * e2 + combined(g, 0, 3)
        * e3) * f0 + (combined(g, 1, 0) * e0 + combined(g, 1, 1) * e1 + combined(g, 1, 2) * e2
        + combined(g, 1, 3) * e3) * f1 + (combined(g, 2, 0) * e0 + combined(g, 2, 1) * e1
        + combined(g, 2, 2) * e2 + combined(g, 2, 3) * e3) * f2 + (combined(g, 3, 0) * e0
        + combined(g, 3, 1) * e1 + combined(g, 3, 2) * e2 + combined(g, 3, 3) * e3) * f3
}

proof fn lemma_dot_scaled(a0: int, a1: int, a2: int, a3: int, s: int, e0: int, e1: int, e2: int, e3: int)
    ensures
        a0 * (s * e0) + a1 * (s * e1) + a2 * (s * e2) + a3 * (s * e3) == s * (a0 * e0 + a1 * e1 + a2
            * e2 + a3 * e3),
{
    lemma_mul_swap(a0, s, e0);
    lemma_mul_swap(a1, s, e1);
    lemma_mul_swap(a2, s, e2);
    lemma_mul_swap(a3, s, e3);
    lemma_mul_is_distributive_add(s, a0 * e0, a1 * e1);
    lemma_mul_is_distributive_add(s, a0 * e0 + a1 * e1, a2 * e2);
    lemma_mul_is_distributive_add(s, a0 * e0 + a1 * e1 + a2 * e2, a3 * e3);
}

proof fn lemma_mul_swap(a: int, s: int, e: int)
    ensures
        a * (s * e) == s * (a * e),
        (s * a) * e == s * (a * e),
{
    lemma_mul_is_associative(a, s, e);
    lemma_mul_is_associative(s, a, e);
    lemma_mul_is_commutative(a, s);
}

/// Where the parameter vectors are multiples `s * e` and `t * f` of integer
/// vectors, the field is `s * t` times `(M · e) · f`.
pub proof fn lemma_field_scaled(
    g: [[i64; 4]; 4],
    i: int,
    j: int,
    d: int,
    s: int,
    e0: int,
    e1: int,
    e2: int,
    e3: int,
    t: int,
    f0: int,
    f1: int,
    f2: int,
    f3: int,
)
    requires
        cubic(i, d, 0) == s * e0,
        cubic(i, d, 1) == s * e1,
        cubic(i, d, 2) == s * e2,
        cubic(i, d, 3) == s * e3,
        cubic(j, d, 0) == t * f0,
        cubic(j, d, 1) == t * f1,
        cubic(j, d, 2) == t * f2,
        cubic(j, d, 3) == t * f3,
    ensures
        field_num(g, i, j, d) == (s * t) * weighted(g, e0, e1, e2, e3, f0, f1, f2, f3),
{
    reveal(field_num);
    let m00 = combined(g, 0, 0);
    let m01 = combined(g, 0, 1);
    let m02 = combined(g, 0, 2);
    let m03 = combined(g, 0, 3);
    let m10 = combined(g, 1, 0);
    let m11 = combined(g, 1, 1);
    let m12 = combined(g, 1, 2);
    let m13 = combined(g, 1, 3);
    let m20 = combined(g, 2, 0);
    let m21 = combined(g, 2, 1);
    let m22 = combined(g, 2, 2);
    let m23 = combined(g, 2, 3);
    let m30 = combined(g, 3, 0);
    let m31 = combined(g, 3, 1);
    let m32 = combined(g, 3, 2);
    let m33 = combined(g, 3, 3);
    lemma_dot_scaled(m00, m01, m02, m03, s, e0, e1, e2, e3);
    lemma_dot_scaled(m10, m11, m12, m13, s, e0, e1, e2, e3);
    lemma_dot_scaled(m20, m21, m22, m23, s, e0, e1, e2, e3);
    lemma_dot_scaled(m30, m31, m32, m33, s, e0, e1, e2, e3);
    let r0 = m00 * e0 + m01 * e1 + m02 * e2 + m03 * e3;
    let r1 = m10 * e0 + m11 * e1 + m12 * e2 + m13 * e3;
    let r2 = m20 * e0 + m21 * e1 + m22 * e2 + m23 * e3;
    let r3 = m30 * e0 + m31 * e1 + m32 * e2 + m33 * e3;
    lemma_dot_scaled(s * r0, s * r1, s * r2, s * r3, t, f0, f1, f2, f3);
    lemma_mul_swap(s, r0, f0);
    lemma_mul_swap(s, r1, f1);
    lemma_mul_swap(s, r2, f2);
    lemma_mul_swap(s, r3, f3);
    let x = r0 * f0 + r1 * f1 + r2 * f2 + r3 * f3;
    lemma_mul_is_distributive_add(s, r0 * f0, r1 * f1);
    lemma_mul_is_distributive_add(s, r0 * f0 + r1 * f1, r2 * f2);
    lemma_mul_is_distributive_add(s, r0 * f0 + r1 * f1 + r2 * f2, r3 * f3);
    lemma_mul_is_associative(t, s, x);
    lemma_mul_is_commutative(t, s);
}

/// At the four parameter corners the field takes the corner entries of its
/// coefficient matrix exactly: `G[0][0]` at `(0, 0)`, `G[1][0]` at `(1, 0)`,
/// `G[0][1]` at `(0, 1)` and `G[1][1]` at `(1, 1)`.
pub proof fn lemma_field_corners(g: [[i64; 4]; 4], d: int)
    requires
        d > 0,
    ensures
        field_at(g, 0, 0, d) == g[0][0],
        field_at(g, d, 0, d) == g[1][0],
        field_at(g, 0, d, d) == g[0][1],
        field_at(g, d, d, d) == g[1][1],
{
    let big_d = cube(d);
    assert(big_d > 0) by (nonlinear_arith)
        requires
            d > 0,
            big_d == d * d * d,
    ;
    lemma_mul_strictly_positive(big_d, big_d);
    lemma_field_scaled(g, 0, 0, d, big_d, 0, 0, 0, 1, big_d, 0, 0, 0, 1);
    lemma_field_scaled(g, d, 0, d, big_d, 1, 1, 1, 1, big_d, 0, 0, 0, 1);
    lemma_field_scaled(g, 0, d, d, big_d, 0, 0, 0, 1, big_d, 1, 1, 1, 1);
    lemma_field_scaled(g, d, d, d, big_d, 1, 1, 1, 1, big_d, 1, 1, 1, 1);
    lemma_div_multiples_vanish(g[0][0] as int, big_d * big_d);
    lemma_div_multiples_vanish(g[1][0] as int, big_d * big_d);
    lemma_div_multiples_vanish(g[0][1] as int, big_d * big_d);
    lemma_div_multiples_vanish(g[1][1] as int, big_d * big_d);
}

/// `d²` times the bilinear blend `(1-u)(1-v)c00 + u(1-v)c01 + (1-u)v c10 + uv c11`
/// at `u = i / d`, `v = j / d`.
pub open spec fn bilinear_num(c00: int, c01: int, c10: int, c11: int, i: int, j: int, d: int) -> int {
    (d - i) * (d - j) * c00 + i * (d - j) * c01 + (d - i) * j * c10 + i * j * c11
}

/// A parameter `i / d` that is `0`, `1/2` or `1`.
pub open spec fn is_half_step(i: int, d: int) -> bool {
    i == 0 || i == d || 2 * i == d
}

/// The coefficient matrix has no slope terms: only its upper left 2×2 block
/// may be nonzero.
pub open spec fn slope_free(g: [[i64; 4]; 4]) -> bool {
    &&& g[0][2] == 0 && g[0][3] == 0 && g[1][2] == 0 && g[1][3] == 0
    &&& g[2][0] == 0 && g[2][1] == 0 && g[2][2] == 0 && g[2][3] == 0
    &&& g[3][0] == 0 && g[3][1] == 0 && g[3][2] == 0 && g[3][3] == 0
}

proof fn lemma_half_step_facts(i: int, d: int)
    requires
        d > 0,
    ensures
        i == 0 ==> {
            &&& cubic(i, d, 0) == cube(d) * 0 && cubic(i, d, 1) == cube(d) * 0
            &&& cubic(i, d, 2) == cube(d) * 0 && cubic(i, d, 3) == cube(d) * 1
            &&& cube(d) * 1 == d * d * (d - i) && cube(d) * 0 == d * d * i
        },
        i == d ==> {
            &&& cubic(i, d, 0) == cube(d) * 1 && cubic(i, d, 1) == cube(d) * 1
            &&& cubic(i, d, 2) == cube(d) * 1 && cubic(i, d, 3) == cube(d) * 1
            &&& cube(d) * 0 == d * d * (d - i) && cube(d) * 1 == d * d * i
        },
        2 * i == d ==> {
            &&& cubic(i, d, 0) == cube(i) * 1 && cubic(i, d, 1) == cube(i) * 2
            &&& cubic(i, d, 2) == cube(i) * 4 && cubic(i, d, 3) == cube(i) * 8
            &&& cube(i) * 4 == d * d * (d - i) && cube(i) * 4 == d * d * i
        },
{
    if i == 0 {
        assert(i * i * i == 0 && i * i * d == 0 && i * d * d == 0 && d * d * d == d * d * (d - i)
            && d * d * i == 0) by (nonlinear_arith)
            requires
                i == 0,
        ;
    }
    if i == d {
        assert(i * i * i == d * d * d && i * i * d == d * d * d && i * d * d == d * d * d && d * d * (d
            - i) == 0 && d * d * i == d * d * d) by (nonlinear_arith)
            requires
                i == d,
        ;
    }
    if 2 * i == d {
        let k = i * i * i;
        assert(i * i * d == k * 2 && i * d * d == k * 4 && d * d * d == k * 8 && k * 4 == d * d * (d
            - i) && k * 4 == d * d * i) by (nonlinear_arith)
            requires
                2 * i == d,
                k == i * i * i,
        ;
    }
}

proof fn lemma_blend_term(s: int, t: int, a: int, b: int, c: int, x: int, y: int)
    requires
        s * a == x,
        t * b == y,
    ensures
        (s * t) * (c * a * b) == c * x * y,
{
    assert((s * t) * (c * a * b) == c * (s * a) * (t * b)) by (nonlinear_arith);
}

proof fn lemma_blend_sum(
    s: int,
    t: int,
    a0: int,
    a1: int,
    b0: int,
    b1: int,
    c00: int,
    c01: int,
    c10: int,
    c11: int,
    x0: int,
    x1: int,
    y0: int,
    y1: int,
)
    requires
        s * a0 == x0,
        s * a1 == x1,
        t * b0 == y0,
        t * b1 == y1,
    ensures
        (s * t) * (c00 * a0 * b0 + c01 * a1 * b0 + c10 * a0 * b1 + c11 * a1 * b1) == c00 * x0 * y0
            + c01 * x1 * y0 + c10 * x0 * y1 + c11 * x1 * y1,
{
    lemma_blend_term(s, t, a0, b0, c00, x0, y0);
    lemma_blend_term(s, t, a1, b0, c01, x1, y0);
    lemma_blend_term(s, t, a0, b1, c10, x0, y1);
    lemma_blend_term(s, t, a1, b1, c11, x1, y1);
    lemma_mul_is_distributive_add(s * t, c00 * a0 * b0, c01 * a1 * b0);
    lemma_mul_is_distributive_add(s * t, c00 * a0 * b0 + c01 * a1 * b0, c10 * a0 * b1);
    lemma_mul_is_distributive_add(s * t, c00 * a0 * b0 + c01 * a1 * b0 + c10 * a0 * b1, c11 * a1 * b1);
}

proof fn lemma_square_scale(c: int, x: int, y: int, dd: int)
    ensures
        c * (dd * x) * (dd * y) == (dd * dd) * (x * y * c),
{
    assert(c * (dd * x) * (dd * y) == (dd * dd) * (x * y * c)) by (nonlinear_arith);
}

/// A coefficient matrix without slope terms blends its corners bilinearly at
/// the parameters `0`, `1/2` and `1`: there the field is exactly the bilinear
/// blend of `G[0][0]`, `G[1][0]`, `G[0][1]`, `G[1][1]`.
pub proof fn lemma_blend_bilinear(g: [[i64; 4]; 4], i: int, j: int, d: int)
    requires
        d > 0,
        slope_free(g),
        is_half_step(i, d),
        is_half_step(j, d),
    ensures
        field_num(g, i, j, d) == (d * d) * (d * d) * bilinear_num(
            g[0][0] as int,
            g[1][0] as int,
            g[0][1] as int,
            g[1][1] as int,
            i,
            j,
            d,
        ),
{
    lemma_half_step_facts(i, d);
    lemma_half_step_facts(j, d);
    let dd = d * d;
    let c00 = g[0][0] as int;
    let c01 = g[1][0] as int;
    let c10 = g[0][1] as int;
    let c11 = g[1][1] as int;
    if i == 0 && j == 0 {
        lemma_field_scaled(g, i, j, d, cube(d), 0, 0, 0, 1, cube(d), 0, 0, 0, 1);
        assert(weighted(g, 0, 0, 0, 1, 0, 0, 0, 1) == c00 * 1 * 1 + c01 * 0 * 1 + c10 * 1 * 0 + c11 * 0 * 0);
        lemma_blend_sum(cube(d), cube(d), 1, 0, 1, 0, c00, c01, c10, c11, dd * (d - i), dd * i, dd * (d - j), dd * j);
    } else if i == 0 && j == d {
        lemma_field_scaled(g, i, j, d, cube(d), 0, 0, 0, 1, cube(d), 1, 1, 1, 1);
        assert(weighted(g, 0, 0, 0, 1, 1, 1, 1, 1) == c00 * 1 * 0 + c01 * 0 * 0 + c10 * 1 * 1 + c11 * 0 * 1);
        lemma_blend_sum(cube(d), cube(d), 1, 0, 0, 1, c00, c01, c10, c11, dd * (d - i), dd * i, dd * (d - j), dd * j);
    } else if i == 0 && 2 * j == d {
        lemma_field_scaled(g, i, j, d, cube(d), 0, 0, 0, 1, cube(j), 1, 2, 4, 8);
        assert(weighted(g, 0, 0, 0, 1, 1, 2, 4, 8) == c00 * 1 * 4 + c01 * 0 * 4 + c10 * 1 * 4 + c11 * 0 * 4);
        lemma_blend_sum(cube(d), cube(j), 1, 0, 4, 4, c00, c01, c10, c11, dd * (d - i), dd * i, dd * (d - j), dd * j);
    } else if i == d && j == 0 {
        lemma_field_scaled(g, i, j, d, cube(d), 1, 1, 1, 1, cube(d), 0, 0, 0, 1);
        assert(weighted(g, 1, 1, 1, 1, 0, 0, 0, 1) == c00 * 0 * 1 + c01 * 1 * 1 + c10 * 0 * 0 + c11 * 1 * 0);
        lemma_blend_sum(cube(d), cube(d), 0, 1, 1, 0, c00, c01, c10, c11, dd * (d - i), dd * i, dd * (d - j), dd * j);
    } else if i == d && j == d {
        lemma_field_scaled(g, i, j, d, cube(d), 1, 1, 1, 1, cube(d), 1, 1, 1, 1);
        assert(weighted(g, 1, 1, 1, 1, 1, 1, 1, 1) == c00 * 0 * 0 + c01 * 1 * 0 + c10 * 0 * 1 + c11 * 1 * 1);
        lemma_blend_sum(cube(d), cube(d), 0, 1, 0, 1, c00, c01, c10, c11, dd * (d - i), dd * i, dd * (d - j), dd * j);
    } else if i == d && 2 * j == d {
        lemma_field_scaled(g, i, j, d, cube(d), 1, 1, 1, 1, cube(j), 1, 2, 4, 8);
        assert(weighted(g, 1, 1, 1, 1, 1, 2, 4, 8) == c00 * 0 * 4 + c01 * 1 * 4 + c10 * 0 * 4 + c11 * 1 * 4);
        lemma_blend_sum(cube(d), cube(j), 0, 1, 4, 4, c00, c01, c10, c11, dd * (d - i), dd * i, dd * (d - j), dd * j);
    } else if 2 * i == d && j == 0 {
        lemma_field_scaled(g, i, j, d, cube(i), 1, 2, 4, 8, cube(d), 0, 0, 0, 1);
        assert(weighted(g, 1, 2, 4, 8, 0, 0, 0, 1) == c00 * 4 * 1 + c01 * 4 * 1 + c10 * 4 * 0 + c11 * 4 * 0);
        lemma_blend_sum(cube(i), cube(d), 4, 4, 1, 0, c00, c01, c10, c11, dd * (d - i), dd * i, dd * (d - j), dd * j);
    } else if 2 * i == d && j == d {
        lemma_field_scaled(g, i, j, d, cube(i), 1, 2, 4, 8, cube(d), 1, 1, 1, 1);
        assert(weighted(g, 1, 2, 4, 8, 1, 1, 1, 1) == c00 * 4 * 0 + c01 * 4 * 0 + c10 * 4 * 1 + c11 * 4 * 1);
        lemma_blend_sum(cube(i), cube(d), 4, 4, 0, 1, c00, c01, c10, c11, dd * (d - i), dd * i, dd * (d - j), dd * j);
    } else if 2 * i == d && 2 * j == d {
        lemma_field_scaled(g, i, j, d, cube(i), 1, 2, 4, 8, cube(j), 1, 2, 4, 8);
        assert(weighted(g, 1, 2, 4, 8, 1, 2, 4, 8) == c00 * 4 * 4 + c01 * 4 * 4 + c10 * 4 * 4 + c11 * 4 * 4);
        lemma_blend_sum(cube(i), cube(j), 4, 4, 4, 4, c00, c01, c10, c11, dd * (d - i), dd * i, dd * (d - j), dd * j);
    }
    lemma_square_scale(c00, d - i, d - j, dd);
    lemma_square_scale(c01, i, d - j, dd);
    lemma_square_scale(c10, d - i, j, dd);
    lemma_square_scale(c11, i, j, dd);
    let x00 = (d - i) * (d - j) * c00;
    let x01 = i * (d - j) * c01;
    let x10 = (d - i) * j * c10;
    let x11 = i * j * c11;
    lemma_mul_is_distributive_add(dd * dd, x00, x01);
    lemma_mul_is_distributive_add(dd * dd, x00 + x01, x10);
    lemma_mul_is_distributive_add(dd * dd, x00 + x01 + x10, x11);
}

} // verus!
