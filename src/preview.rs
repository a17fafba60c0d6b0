use vstd::prelude::*;
use crate::hermite::{MAX_STEPS, coeffs_bounded, field_at};
use crate::patch::{Axis, ferguson_patch_col, ferguson_patch_pt};
use vstd::arithmetic::div_mod::*;
use vstd::arithmetic::mul::*;

verus! {

/// The parameters of sample `k` along one edge of a patch: along `X` the edge
/// runs in `u` at `v = fixed / steps`, along `Y` in `v` at `u = fixed / steps`.
pub open spec fn edge_param(axis: Axis, fixed: int, k: int) -> (int, int) {
    match axis {
        Axis::X => (k, fixed),
        Axis::Y => (fixed, k),
    }
}

/// Samples one edge of a patch for drawing it as a polyline: the positions and
/// colors at `k / steps` for `k` in `0..=steps`, with the other parameter held
/// at `0` (`far == false`) or `1` (`far == true`).
pub fn draw_across_ferguson_axis(
    geom_x: &[[i64; 4]; 4],
    geom_y: &[[i64; 4]; 4],
    r_coeffs: &[[i64; 4]; 4],
    g_coeffs: &[[i64; 4]; 4],
    b_coeffs: &[[i64; 4]; 4],
    far: bool,
    steps: u64,
    axis: Axis,
) -> (r: (Vec<[i64; 2]>, Vec<[i64; 3]>))
    requires
        coeffs_bounded(*geom_x),
        coeffs_bounded(*geom_y),
        coeffs_bounded(*r_coeffs),
        coeffs_bounded(*g_coeffs),
        coeffs_bounded(*b_coeffs),
        0 < steps <= MAX_STEPS,
    ensures
        r.0.len() == steps + 1,
        r.1.len() == steps + 1,
        forall|k: int|
            #![trigger r.0@[k]]
            0 <= k <= steps ==> {
                let (u, v) = edge_param(axis, if far { steps as int } else { 0 }, k);
                &&& r.0@[k][0] == field_at(*geom_x, u, v, steps as int)
                &&& r.0@[k][1] == field_at(*geom_y, u, v, steps as int)
                &&& r.1@[k][0] == field_at(*r_coeffs, u, v, steps as int)
                &&& r.1@[k][1] == field_at(*g_coeffs, u, v, steps as int)
                &&& r.1@[k][2] == field_at(*b_coeffs, u, v, steps as int)
            },
{
    let fixed: u64 = if far { steps } else { 0 };
    let mut points: Vec<[i64; 2]> = Vec::new();
    let mut colors: Vec<[i64; 3]> = Vec::new();
    let mut k: u64 = 0;
    while k <= steps
        invariant
            coeffs_bounded(*geom_x),
            coeffs_bounded(*geom_y),
            coeffs_bounded(*r_coeffs),
            coeffs_bounded(*g_coeffs),
            coeffs_bounded(*b_coeffs),
            0 < steps <= MAX_STEPS,
            fixed == if far { steps } else { 0 },
            k <= steps + 1,
            points.len() == k,
            colors.len() == k,
            forall|m: int|
                #![trigger points@[m]]
                0 <= m < k ==> {
                    let (u, v) = edge_param(axis, fixed as int, m);
                    &&& points@[m][0] == field_at(*geom_x, u, v, steps as int)
                    &&& points@[m][1] == field_at(*geom_y, u, v, steps as int)
                    &&& colors@[m][0] == field_at(*r_coeffs, u, v, steps as int)
                    &&& colors@[m][1] == field_at(*g_coeffs, u, v, steps as int)
                    &&& colors@[m][2] == field_at(*b_coeffs, u, v, steps as int)
                },
        decreases steps + 1 - k,
    {
        let (u, v) = match axis {
            Axis::X => (k, fixed),
            Axis::Y => (fixed, k),
        };
        let p = ferguson_patch_pt(u, v, steps, geom_x, geom_y);
        let c = ferguson_patch_col(u, v, steps, r_coeffs, g_coeffs, b_coeffs);
        points.push(p);
        colors.push(c);
        k = k + 1;
    }
    (points, colors)
}

/// Samples the interior of a patch for drawing it as dots: position and color
/// at `(i / n, j / n)` for `i, j` in `0..n`, row `i` by row `i`.
pub fn draw_hermite_from_geom(
    geom_x: &[[i64; 4]; 4],
    geom_y: &[[i64; 4]; 4],
    r_coeffs: &[[i64; 4]; 4],
    g_coeffs: &[[i64; 4]; 4],
    b_coeffs: &[[i64; 4]; 4],
    n: u64,
) -> (r: (Vec<[i64; 2]>, Vec<[i64; 3]>))
    requires
        coeffs_bounded(*geom_x),
        coeffs_bounded(*geom_y),
        coeffs_bounded(*r_coeffs),
        coeffs_bounded(*g_coeffs),
        coeffs_bounded(*b_coeffs),
        0 < n <= MAX_STEPS,
    ensures
        r.0.len() == n * n,
        r.1.len() == n * n,
        forall|m: int|
            #![trigger r.0@[m]]
            0 <= m < n * n ==> {
                &&& r.0@[m][0] == field_at(*geom_x, m / n as int, m % n as int, n as int)
                &&& r.0@[m][1] == field_at(*geom_y, m / n as int, m % n as int, n as int)
                &&& r.1@[m][0] == field_at(*r_coeffs, m / n as int, m % n as int, n as int)
                &&& r.1@[m][1] == field_at(*g_coeffs, m / n as int, m % n as int, n as int)
                &&& r.1@[m][2] == field_at(*b_coeffs, m / n as int, m % n as int, n as int)
            },
{
    proof {
        lemma_mul_upper_bound(n as int, MAX_STEPS as int, n as int, MAX_STEPS as int);
    }
    let total: u64 = n * n;
    let mut points: Vec<[i64; 2]> = Vec::new();
    let mut colors: Vec<[i64; 3]> = Vec::new();
    let mut m: u64 = 0;
    while m < total
        invariant
            coeffs_bounded(*geom_x),
            coeffs_bounded(*geom_y),
            coeffs_bounded(*r_coeffs),
            coeffs_bounded(*g_coeffs),
            coeffs_bounded(*b_coeffs),
            0 < n <= MAX_STEPS,
            total == n * n,
            m <= total,
            points.len() == m,
            colors.len() == m,
            forall|x: int|
                #![trigger points@[x]]
                0 <= x < m ==> {
                    &&& points@[x][0] == field_at(*geom_x, x / n as int, x % n as int, n as int)
                    &&& points@[x][1] == field_at(*geom_y, x / n as int, x % n as int, n as int)
                    &&& colors@[x][0] == field_at(*r_coeffs, x / n as int, x % n as int, n as int)
                    &&& colors@[x][1] == field_at(*g_coeffs, x / n as int, x % n as int, n as int)
                    &&& colors@[x][2] == field_at(*b_coeffs, x / n as int, x % n as int, n as int)
                },
        decreases total - m,
    {
        let i: u64 = m / n;
        let j: u64 = m % n;
        proof {
            lemma_div_is_ordered(m as int, total as int, n as int);
            lemma_div_by_multiple(n as int, n as int);
            if i >= n {
                lemma_fundamental_div_mod(m as int, n as int);
                lemma_mul_inequality(n as int, i as int, n as int);
            }
        }
        let p = ferguson_patch_pt(i, j, n, geom_x, geom_y);
        let c = ferguson_patch_col(i, j, n, r_coeffs, g_coeffs, b_coeffs);
        points.push(p);
        colors.push(c);
        m = m + 1;
    }
    (points, colors)
}

} // verus!
