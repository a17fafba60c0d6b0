use vstd::prelude::*;
use crate::grid::{ControlPoint, point_bounded};
use crate::hermite::{
    MAX_STEPS,
    bilinear_num,
    coeffs_bounded,
    evaluate,
    field_at,
    field_num,
    is_half_step,
    lemma_blend_bilinear,
    lemma_field_corners,
};
use crate::grid::UNIT;

verus! {

/// A position axis.
#[derive(Debug, Clone, Copy, PartialEq, Eq, Structural)]
pub enum Axis {
    X,
    Y,
}

/// A color channel.
#[derive(Debug, Clone, Copy, PartialEq, Eq, Structural)]
pub enum ColorAxis {
    R,
    G,
    B,
}

pub open spec fn axis_index(axis: Axis) -> int {
    match axis {
        Axis::X => 0,
        Axis::Y => 1,
    }
}

pub open spec fn channel_index(channel: ColorAxis) -> int {
    match channel {
        ColorAxis::R => 0,
        ColorAxis::G => 1,
        ColorAxis::B => 2,
    }
}

/// The geometry coefficient matrix of a patch for one position axis.
pub open spec fn geometric_spec(
    p00: ControlPoint,
    p01: ControlPoint,
    p10: ControlPoint,
    p11: ControlPoint,
    axis: Axis,
) -> [[i64; 4]; 4] {
    let k = axis_index(axis);
    [
        [p00.position[k], p10.position[k], p00.u_tangent[k], p10.u_tangent[k]],
        [p01.position[k], p11.position[k], p01.u_tangent[k], p11.u_tangent[k]],
        [p00.v_tangent[k], p10.v_tangent[k], 0, 0],
        [p01.v_tangent[k], p11.v_tangent[k], 0, 0],
    ]
}

/// The coefficient matrix of a patch for one color channel: the corner values
/// and no slope terms.
pub open spec fn color_spec(
    p00: ControlPoint,
    p01: ControlPoint,
    p10: ControlPoint,
    p11: ControlPoint,
    channel: ColorAxis,
) -> [[i64; 4]; 4] {
    let k = channel_index(channel);
    [
        [p00.color[k], p10.color[k], 0, 0],
        [p01.color[k], p11.color[k], 0, 0],
        [0, 0, 0, 0],
        [0, 0, 0, 0],
    ]
}

fn pick_axis(v: [i64; 2], axis: Axis) -> (r: i64)
    ensures
        r == v[axis_index(axis)],
{
    match axis {
        Axis::X => v[0],
        Axis::Y => v[1],
    }
}

fn pick_channel(c: [i64; 3], channel: ColorAxis) -> (r: i64)
    ensures
        r == c[channel_index(channel)],
{
    match channel {
        ColorAxis::R => c[0],
        ColorAxis::G => c[1],
        ColorAxis::B => c[2],
    }
}

/// The geometry coefficient matrix of the patch with corners `p00` (w, h),
/// `p01` (w, h + 1), `p10` (w + 1, h), `p11` (w + 1, h + 1) for one axis.
pub fn geometric_coefficients(
    p00: &ControlPoint,
    p01: &ControlPoint,
    p10: &ControlPoint,
    p11: &ControlPoint,
    axis: Axis,
) -> (g: [[i64; 4]; 4])
    ensures
        g == geometric_spec(*p00, *p01, *p10, *p11, axis),
        point_bounded(*p00) && point_bounded(*p01) && point_bounded(*p10) && point_bounded(*p11)
            ==> coeffs_bounded(g),
{
    let l00 = pick_axis(p00.position, axis);
    let l01 = pick_axis(p01.position, axis);
    let l10 = pick_axis(p10.position, axis);
    let l11 = pick_axis(p11.position, axis);
    let u00 = pick_axis(p00.u_tangent, axis);
    let u01 = pick_axis(p01.u_tangent, axis);
    let u10 = pick_axis(p10.u_tangent, axis);
    let u11 = pick_axis(p11.u_tangent, axis);
    let v00 = pick_axis(p00.v_tangent, axis);
    let v01 = pick_axis(p01.v_tangent, axis);
    let v10 = pick_axis(p10.v_tangent, axis);
    let v11 = pick_axis(p11.v_tangent, axis);
    [[l00, l10, u00, u10], [l01, l11, u01, u11], [v00, v10, 0, 0], [v01, v11, 0, 0]]
}

/// The coefficient matrix of the patch for one color channel.
pub fn color_coefficients(
    p00: &ControlPoint,
    p01: &ControlPoint,
    p10: &ControlPoint,
    p11: &ControlPoint,
    color: ColorAxis,
) -> (g: [[i64; 4]; 4])
    ensures
        g == color_spec(*p00, *p01, *p10, *p11, color),
        point_bounded(*p00) && point_bounded(*p01) && point_bounded(*p10) && point_bounded(*p11)
            ==> coeffs_bounded(g),
{
    let l00 = pick_channel(p00.color, color);
    let l01 = pick_channel(p01.color, color);
    let l10 = pick_channel(p10.color, color);
    let l11 = pick_channel(p11.color, color);
    [[l00, l10, 0, 0], [l01, l11, 0, 0], [0, 0, 0, 0], [0, 0, 0, 0]]
}

/// The position of the patch at `u = i / d`, `v = j / d`.
pub fn ferguson_patch_pt(
    i: u64,
    j: u64,
    d: u64,
    geom_x: &[[i64; 4]; 4],
    geom_y: &[[i64; 4]; 4],
) -> (r: [i64; 2])
    requires
        coeffs_bounded(*geom_x),
        coeffs_bounded(*geom_y),
        0 < d <= MAX_STEPS,
        i <= d,
        j <= d,
    ensures
        r[0] == field_at(*geom_x, i as int, j as int, d as int),
        r[1] == field_at(*geom_y, i as int, j as int, d as int),
        -0x100_0000_0000 <= r[0] <= 0x100_0000_0000,
        -0x100_0000_0000 <= r[1] <= 0x100_0000_0000,
{
    [evaluate(geom_x, i, j, d), evaluate(geom_y, i, j, d)]
}

/// The color of the patch at `u = i / d`, `v = j / d`.
pub fn ferguson_patch_col(
    i: u64,
    j: u64,
    d: u64,
    r_coeffs: &[[i64; 4]; 4],
    g_coeffs: &[[i64; 4]; 4],
    b_coeffs: &[[i64; 4]; 4],
) -> (r: [i64; 3])
    requires
        coeffs_bounded(*r_coeffs),
        coeffs_bounded(*g_coeffs),
        coeffs_bounded(*b_coeffs),
        0 < d <= MAX_STEPS,
        i <= d,
        j <= d,
    ensures
        r[0] == field_at(*r_coeffs, i as int, j as int, d as int),
        r[1] == field_at(*g_coeffs, i as int, j as int, d as int),
        r[2] == field_at(*b_coeffs, i as int, j as int, d as int),
{
    [evaluate(r_coeffs, i, j, d), evaluate(g_coeffs, i, j, d), evaluate(b_coeffs, i, j, d)]
}

/// The output-space image of a patch-space position `p`: `2p - (1, 1)` with
/// the vertical axis flipped, and `z = 0`.
pub open spec fn output_spec(p: [i64; 2]) -> [i64; 3] {
    [(2 * p[0] - UNIT) as i64, (UNIT - 2 * p[1]) as i64, 0]
}

/// Maps a patch-space position into output space.
pub fn to_output_space(p: [i64; 2]) -> (r: [i64; 3])
    requires
        -0x100_0000_0000 <= p[0] <= 0x100_0000_0000,
        -0x100_0000_0000 <= p[1] <= 0x100_0000_0000,
    ensures
        r == output_spec(p),
        r[0] == 2 * p[0] - UNIT,
        r[1] == UNIT - 2 * p[1],
        r[2] == 0,
{
    [2 * p[0] - UNIT, UNIT - 2 * p[1], 0]
}

/// Corner exactness: at the parameter corners the patch reproduces its corner
/// points exactly. `u` runs from `p00` towards `p01` and `v` from `p00`
/// towards `p10`; position and color alike.
pub proof fn lemma_corner_exactness(
    p00: ControlPoint,
    p01: ControlPoint,
    p10: ControlPoint,
    p11: ControlPoint,
    axis: Axis,
    channel: ColorAxis,
    d: int,
)
    requires
        d > 0,
    ensures
        field_at(geometric_spec(p00, p01, p10, p11, axis), 0, 0, d) == p00.position[axis_index(axis)],
        field_at(geometric_spec(p00, p01, p10, p11, axis), d, 0, d) == p01.position[axis_index(axis)],
        field_at(geometric_spec(p00, p01, p10, p11, axis), 0, d, d) == p10.position[axis_index(axis)],
        field_at(geometric_spec(p00, p01, p10, p11, axis), d, d, d) == p11.position[axis_index(axis)],
        field_at(color_spec(p00, p01, p10, p11, channel), 0, 0, d) == p00.color[channel_index(channel)],
        field_at(color_spec(p00, p01, p10, p11, channel), d, 0, d) == p01.color[channel_index(channel)],
        field_at(color_spec(p00, p01, p10, p11, channel), 0, d, d) == p10.color[channel_index(channel)],
        field_at(color_spec(p00, p01, p10, p11, channel), d, d, d) == p11.color[channel_index(channel)],
{
    lemma_field_corners(geometric_spec(p00, p01, p10, p11, axis), d);
    lemma_field_corners(color_spec(p00, p01, p10, p11, channel), d);
}

/// Color bilinearity: where each parameter is `0`, `1/2` or `1`, the color of
/// the patch is exactly the bilinear blend
/// `(1-u)(1-v)c00 + u(1-v)c01 + (1-u)v c10 + uv c11` of its corner colors
/// (the field scaled by `d⁶` equals `d⁴` times the blend scaled by `d²`).
pub proof fn lemma_color_bilinear(
    p00: ControlPoint,
    p01: ControlPoint,
    p10: ControlPoint,
    p11: ControlPoint,
    channel: ColorAxis,
    i: int,
    j: int,
    d: int,
)
    requires
        d > 0,
        is_half_step(i, d),
        is_half_step(j, d),
    ensures
        field_num(color_spec(p00, p01, p10, p11, channel), i, j, d) == (d * d) * (d * d) * bilinear_num(
            p00.color[channel_index(channel)] as int,
            p01.color[channel_index(channel)] as int,
            p10.color[channel_index(channel)] as int,
            p11.color[channel_index(channel)] as int,
            i,
            j,
            d,
        ),
{
    lemma_blend_bilinear(color_spec(p00, p01, p10, p11, channel), i, j, d);
}

} // verus!
