use vstd::prelude::*;
use crate::grid::{ControlGrid, lemma_cell_in_grid, lemma_cell_index};
use vstd::arithmetic::div_mod::*;
use vstd::arithmetic::mul::*;
use crate::hermite::{MAX_STEPS, coeffs_bounded, field_at, lemma_field_corners};
use crate::patch::{
    Axis,
    ColorAxis,
    color_coefficients,
    color_spec,
    ferguson_patch_col,
    ferguson_patch_pt,
    geometric_coefficients,
    geometric_spec,
    output_spec,
    to_output_space,
};

verus! {

/// A triangulated mesh: one position and one color per vertex, and three
/// vertex indexes per triangle.
pub struct MeshArtifact {
    pub positions: Vec<[i64; 3]>,
    pub colors: Vec<[i64; 3]>,
    pub indexes: Vec<u32>,
}

/// The output-space position of a patch with coefficient matrices `gx`, `gy`
/// at `u = i / d`, `v = j / d`.
pub open spec fn patch_position(gx: [[i64; 4]; 4], gy: [[i64; 4]; 4], i: int, j: int, d: int) -> [i64; 3] {
    output_spec([field_at(gx, i, j, d) as i64, field_at(gy, i, j, d) as i64])
}

/// The color of a patch with channel matrices `gr`, `gg`, `gb` at
/// `u = i / d`, `v = j / d`.
pub open spec fn patch_color(
    gr: [[i64; 4]; 4],
    gg: [[i64; 4]; 4],
    gb: [[i64; 4]; 4],
    i: int,
    j: int,
    d: int,
) -> [i64; 3] {
    [field_at(gr, i, j, d) as i64, field_at(gg, i, j, d) as i64, field_at(gb, i, j, d) as i64]
}

/// The output-space position of the patch at column `w`, row `h` of the grid,
/// sampled at `u = i / d`, `v = j / d`.
pub open spec fn sample_position(grid: ControlGrid, w: int, h: int, i: int, j: int, d: int) -> [i64; 3] {
    let p00 = grid.point_spec(w, h);
    let p01 = grid.point_spec(w, h + 1);
    let p10 = grid.point_spec(w + 1, h);
    let p11 = grid.point_spec(w + 1, h + 1);
    patch_position(
        geometric_spec(p00, p01, p10, p11, Axis::X),
        geometric_spec(p00, p01, p10, p11, Axis::Y),
        i,
        j,
        d,
    )
}

/// The color of the patch at column `w`, row `h` of the grid, sampled at
/// `u = i / d`, `v = j / d`.
pub open spec fn sample_color(grid: ControlGrid, w: int, h: int, i: int, j: int, d: int) -> [i64; 3] {
    let p00 = grid.point_spec(w, h);
    let p01 = grid.point_spec(w, h + 1);
    let p10 = grid.point_spec(w + 1, h);
    let p11 = grid.point_spec(w + 1, h + 1);
    patch_color(
        color_spec(p00, p01, p10, p11, ColorAxis::R),
        color_spec(p00, p01, p10, p11, ColorAxis::G),
        color_spec(p00, p01, p10, p11, ColorAxis::B),
        i,
        j,
        d,
    )
}

/// Where sample `(i, j)` of patch number `q` stands among the vertices.
pub open spec fn sample_slot(q: int, i: int, j: int, row_len: int) -> int {
    q * (row_len * row_len) + i * row_len + j
}

/// Where corner `t` of the two triangles of cell `(r, c)` of patch number `q`
/// stands among the indexes.
pub open spec fn index_slot(q: int, r: int, c: int, t: int, steps: int) -> int {
    q * (steps * steps * 6) + (r * steps + c) * 6 + t
}

/// The local vertex of corner `t` of the triangles
/// `(idx(r+1,c), idx(r,c+1), idx(r,c))` and `(idx(r+1,c), idx(r+1,c+1), idx(r,c+1))`,
/// with `idx(r, c) = r * row_len + c`.
pub open spec fn triangle_corner(r: int, c: int, t: int, row_len: int) -> int {
    if t == 0 {
        (r + 1) * row_len + c
    } else if t == 1 {
        r * row_len + c + 1
    } else if t == 2 {
        r * row_len + c
    } else if t == 3 {
        (r + 1) * row_len + c
    } else if t == 4 {
        (r + 1) * row_len + c + 1
    } else {
        r * row_len + c + 1
    }
}

proof fn lemma_corner_in_patch(r: int, c: int, t: int, steps: int)
    requires
        0 <= r < steps,
        0 <= c < steps,
        0 <= t < 6,
    ensures
        0 <= triangle_corner(r, c, t, steps + 1) < (steps + 1) * (steps + 1),
{
    assert(0 <= (r + 1) * (steps + 1) + c + 1 < (steps + 1) * (steps + 1) && 0 <= r * (steps + 1)
        && r * (steps + 1) <= (r + 1) * (steps + 1)) by (nonlinear_arith)
        requires
            0 <= r < steps,
            0 <= c < steps,
    ;
}

/// Appends the `(steps + 1)²` samples of one patch, row `i` by row `i`.
fn push_patch_samples(
    positions: &mut Vec<[i64; 3]>,
    colors: &mut Vec<[i64; 3]>,
    gx: &[[i64; 4]; 4],
    gy: &[[i64; 4]; 4],
    gr: &[[i64; 4]; 4],
    gg: &[[i64; 4]; 4],
    gb: &[[i64; 4]; 4],
    steps: usize,
)
    requires
        coeffs_bounded(*gx),
        coeffs_bounded(*gy),
        coeffs_bounded(*gr),
        coeffs_bounded(*gg),
        coeffs_bounded(*gb),
        0 < steps <= MAX_STEPS,
        old(positions).len() == old(colors).len(),
        old(positions).len() + (steps + 1) * (steps + 1) <= usize::MAX,
    ensures
        final(positions).len() == old(positions).len() + (steps + 1) * (steps + 1),
        final(colors).len() == final(positions).len(),
        forall|k: int|
            0 <= k < old(positions).len() ==> final(positions)@[k] == old(positions)@[k]
                && final(colors)@[k] == old(colors)@[k],
        forall|m: int|
            #![trigger final(positions)@[old(positions).len() + m]]
            0 <= m < (steps + 1) * (steps + 1) ==> {
                &&& final(positions)@[old(positions).len() + m] == patch_position(
                    *gx,
                    *gy,
                    m / (steps + 1),
                    m % (steps + 1),
                    steps as int,
                )
                &&& final(colors)@[old(positions).len() + m] == patch_color(
                    *gr,
                    *gg,
                    *gb,
                    m / (steps + 1),
                    m % (steps + 1),
                    steps as int,
                )
            },
{
    let ghost start = positions.len() as int;
    let ghost pos0 = positions@;
    let ghost col0 = colors@;
    let row_len: usize = steps + 1;
    let total: usize = row_len * row_len;
    let mut k: usize = 0;
    while k < total
        invariant
            coeffs_bounded(*gx),
            coeffs_bounded(*gy),
            coeffs_bounded(*gr),
            coeffs_bounded(*gg),
            coeffs_bounded(*gb),
            0 < steps <= MAX_STEPS,
            row_len == steps + 1,
            total == row_len * row_len,
            0 <= start,
            start + total <= usize::MAX,
            k <= total,
            positions.len() == start + k,
            colors.len() == positions.len(),
            forall|m: int| 0 <= m < start ==> positions@[m] == pos0[m] && colors@[m] == col0[m],
            forall|m: int|
                #![trigger positions@[start + m]]
                0 <= m < k ==> {
                    &&& positions@[start + m] == patch_position(
                        *gx,
                        *gy,
                        m / row_len as int,
                        m % row_len as int,
                        steps as int,
                    )
                    &&& colors@[start + m] == patch_color(
                        *gr,
                        *gg,
                        *gb,
                        m / row_len as int,
                        m % row_len as int,
                        steps as int,
                    )
                },
        decreases total - k,
    {
        let i: usize = k / row_len;
        let j: usize = k % row_len;
        proof {
            lemma_div_is_ordered(k as int, total as int, row_len as int);
            lemma_div_by_multiple(row_len as int, row_len as int);
            if i >= row_len {
                lemma_fundamental_div_mod(k as int, row_len as int);
                lemma_mul_inequality(row_len as int, i as int, row_len as int);
            }
        }
        let p = ferguson_patch_pt(i as u64, j as u64, steps as u64, gx, gy);
        let c = ferguson_patch_col(i as u64, j as u64, steps as u64, gr, gg, gb);
        let out = to_output_space(p);
        positions.push(out);
        colors.push(c);
        k = k + 1;
    }
    proof {
        assert forall|m: int| 0 <= m < old(positions).len() implies #[trigger] positions@[m]
            == old(positions)@[m] && colors@[m] == old(colors)@[m] by {
            assert(positions@[m] == pos0[m] && colors@[m] == col0[m]);
        }
    }
}

/// The value of index `m` of one patch's triangles, for a patch whose first
/// vertex is `start`.
pub open spec fn patch_index(start: int, m: int, steps: int) -> int {
    start + triangle_corner((m / 6) / steps, (m / 6) % steps, m % 6, steps + 1)
}

/// Appends the `6 * steps²` indexes of the triangles of one patch, cell by cell.
fn push_patch_indexes(indexes: &mut Vec<u32>, index_start: usize, steps: usize)
    requires
        0 < steps <= MAX_STEPS,
        index_start + (steps + 1) * (steps + 1) <= 0x1_0000_0000,
        old(indexes).len() + 6 * (steps * steps) <= usize::MAX,
    ensures
        final(indexes).len() == old(indexes).len() + 6 * (steps * steps),
        forall|k: int| 0 <= k < old(indexes).len() ==> final(indexes)@[k] == old(indexes)@[k],
        forall|m: int|
            #![trigger final(indexes)@[old(indexes).len() + m]]
            0 <= m < 6 * (steps * steps) ==> {
                &&& final(indexes)@[old(indexes).len() + m] == patch_index(
                    index_start as int,
                    m,
                    steps as int,
                )
                &&& final(indexes)@[old(indexes).len() + m] < index_start + (steps + 1) * (steps
                    + 1)
            },
{
    let ghost start = indexes.len() as int;
    let ghost idx0 = indexes@;
    let row_len: usize = steps + 1;
    let cells: usize = steps * steps;
    let mut k: usize = 0;
    while k < cells
        invariant
            0 < steps <= MAX_STEPS,
            row_len == steps + 1,
            cells == steps * steps,
            index_start + row_len * row_len <= 0x1_0000_0000,
            0 <= start,
            start + 6 * cells <= usize::MAX,
            k <= cells,
            indexes.len() == start + 6 * k,
            forall|m: int| 0 <= m < start ==> indexes@[m] == idx0[m],
            forall|m: int|
                #![trigger indexes@[start + m]]
                0 <= m < 6 * k ==> {
                    &&& indexes@[start + m] == patch_index(index_start as int, m, steps as int)
                    &&& indexes@[start + m] < index_start + row_len * row_len
                },
        decreases cells - k,
    {
        let r: usize = k / steps;
        let c: usize = k % steps;
        proof {
            lemma_div_is_ordered(k as int, cells as int, steps as int);
            lemma_div_by_multiple(steps as int, steps as int);
            if r >= steps {
                lemma_fundamental_div_mod(k as int, steps as int);
                lemma_mul_inequality(steps as int, r as int, steps as int);
            }
            lemma_corner_in_patch(r as int, c as int, 0, steps as int);
            lemma_corner_in_patch(r as int, c as int, 4, steps as int);
            assert(r * row_len + c + row_len + 1 == (r + 1) * row_len + c + 1) by (nonlinear_arith);
            assert(0 <= r * row_len) by (nonlinear_arith);
            assert forall|t: int| 0 <= t < 6 implies #[trigger] ((6 * k + t) / 6) == k && (6 * k + t)
                % 6 == t by {
                lemma_fundamental_div_mod_converse(6 * k + t, 6, k as int, t);
            }
        }
        let base: usize = index_start + r * row_len + c;
        indexes.push((base + row_len) as u32);
        indexes.push((base + 1) as u32);
        indexes.push(base as u32);
        indexes.push((base + row_len) as u32);
        indexes.push((base + row_len + 1) as u32);
        indexes.push((base + 1) as u32);
        k = k + 1;
    }
}

/// The number of patches of the grid, `(width - 1) * (height - 1)`.
pub open spec fn patches(grid: ControlGrid) -> int {
    (grid.grid_width() - 1) * (grid.grid_height() - 1)
}

/// The number of vertices that tessellating with `subdivs` subdivisions
/// yields: `(width - 1)(height - 1)(subdivs + 2)²`.
pub open spec fn vertex_total(grid: ControlGrid, subdivs: int) -> int {
    patches(grid) * ((subdivs + 2) * (subdivs + 2))
}

/// The number of indexes that tessellating with `subdivs` subdivisions
/// yields: `(width - 1)(height - 1)(subdivs + 1)² * 6`.
pub open spec fn index_total(grid: ControlGrid, subdivs: int) -> int {
    patches(grid) * (6 * ((subdivs + 1) * (subdivs + 1)))
}

/// The first `q` patches' samples stand at their places.
pub open spec fn samples_placed(
    positions: Seq<[i64; 3]>,
    colors: Seq<[i64; 3]>,
    grid: ControlGrid,
    q: int,
    steps: int,
) -> bool {
    let rr = (steps + 1) * (steps + 1);
    let hm1 = grid.grid_height() - 1;
    forall|q0: int, v: int|
        #![trigger positions[q0 * rr + v]]
        0 <= q0 < q && 0 <= v < rr ==> {
            &&& positions[q0 * rr + v] == sample_position(
                grid,
                q0 / hm1,
                q0 % hm1,
                v / (steps + 1),
                v % (steps + 1),
                steps,
            )
            &&& colors[q0 * rr + v] == sample_color(
                grid,
                q0 / hm1,
                q0 % hm1,
                v / (steps + 1),
                v % (steps + 1),
                steps,
            )
        }
}

/// The first `q` patches' triangles stand at their places.
pub open spec fn indexes_placed(indexes: Seq<u32>, q: int, steps: int) -> bool {
    let rr = (steps + 1) * (steps + 1);
    let ci = 6 * (steps * steps);
    forall|q0: int, n: int|
        #![trigger indexes[q0 * ci + n]]
        0 <= q0 < q && 0 <= n < ci ==> indexes[q0 * ci + n] == patch_index(q0 * rr, n, steps)
}

proof fn lemma_block_before(q0: int, v: int, q: int, size: int)
    requires
        0 <= q0 < q,
        0 <= v < size,
    ensures
        0 <= q0 * size + v < q * size,
        q0 * size + v < (q0 + 1) * size,
{
    assert(0 <= q0 * size + v < q * size && q0 * size + v < (q0 + 1) * size) by (nonlinear_arith)
        requires
            0 <= q0 < q,
            0 <= v < size,
    ;
}

/// Tessellates every patch of the grid: each patch is sampled on a regular
/// `(subdivs + 2)²` grid of parameters `u = i / (subdivs + 1)`,
/// `v = j / (subdivs + 1)`, and each sample cell becomes two triangles.
/// Patches are taken column by column (`w` outer, `h` inner) and share no
/// vertices.
pub fn construct_mesh(grid: &ControlGrid, subdivs: usize) -> (m: MeshArtifact)
    requires
        grid.wf(),
        subdivs < MAX_STEPS,
        vertex_total(*grid, subdivs as int) <= u32::MAX,
        index_total(*grid, subdivs as int) <= usize::MAX,
    ensures
        m.positions.len() == vertex_total(*grid, subdivs as int),
        m.colors.len() == vertex_total(*grid, subdivs as int),
        m.indexes.len() == index_total(*grid, subdivs as int),
        samples_placed(m.positions@, m.colors@, *grid, patches(*grid), subdivs + 1),
        indexes_placed(m.indexes@, patches(*grid), subdivs + 1),
        forall|k: int| 0 <= k < m.indexes.len() ==> #[trigger] m.indexes@[k] < m.positions.len(),
{
    let steps: usize = subdivs + 1;
    let row_len: usize = steps + 1;
    let total_patches: usize = grid.patch_count();
    let hm1: usize = grid.height() - 1;
    let ghost wm1: int = grid.grid_width() - 1;
    proof {
        assert(total_patches >= 1 && 4 <= row_len * row_len && row_len * row_len <= total_patches * (
        row_len * row_len) && 1 <= steps * steps && 6 * (steps * steps) <= total_patches * (6 * (
        steps * steps)) && row_len * row_len == (subdivs + 2) * (subdivs + 2) && steps * steps == (
        subdivs + 1) * (subdivs + 1)) by (nonlinear_arith)
            requires
                total_patches == wm1 * hm1,
                wm1 >= 1,
                hm1 >= 1,
                steps == subdivs + 1,
                row_len == subdivs + 2,
        ;
    }
    let rr: usize = row_len * row_len;
    let cell_indexes: usize = 6 * (steps * steps);
    let mut positions: Vec<[i64; 3]> = Vec::new();
    let mut colors: Vec<[i64; 3]> = Vec::new();
    let mut indexes: Vec<u32> = Vec::new();
    let mut q: usize = 0;
    while q < total_patches
        invariant
            grid.wf(),
            0 < steps <= MAX_STEPS,
            steps == subdivs + 1,
            row_len == steps + 1,
            rr == row_len * row_len,
            cell_indexes == 6 * (steps * steps),
            hm1 == grid.grid_height() - 1,
            wm1 == grid.grid_width() - 1,
            total_patches == wm1 * hm1,
            rr >= 4,
            cell_indexes >= 6,
            total_patches * rr <= u32::MAX,
            total_patches * cell_indexes <= usize::MAX,
            q <= total_patches,
            positions.len() == q * rr,
            colors.len() == q * rr,
            indexes.len() == q * cell_indexes,
            rr == (steps + 1) * (steps + 1),
            samples_placed(positions@, colors@, *grid, q as int, steps as int),
            indexes_placed(indexes@, q as int, steps as int),
            forall|k: int| 0 <= k < indexes.len() ==> #[trigger] indexes@[k] < q * rr,
        decreases total_patches - q,
    {
        let w: usize = q / hm1;
        let h: usize = q % hm1;
        proof {
            lemma_fundamental_div_mod(q as int, hm1 as int);
            assert(w < wm1) by (nonlinear_arith)
                requires
                    q < wm1 * hm1,
                    q == hm1 * w + h,
                    h >= 0,
                    hm1 > 0,
            ;
            lemma_block_before(q as int, 0, (q + 1) as int, rr as int);
            lemma_block_before(q as int, 0, total_patches as int, rr as int);
            lemma_block_before(q as int, 0, total_patches as int, cell_indexes as int);
            lemma_mul_inequality((q + 1) as int, total_patches as int, rr as int);
            lemma_mul_inequality((q + 1) as int, total_patches as int, cell_indexes as int);
            assert((q + 1) * rr == q * rr + rr && (q + 1) * cell_indexes == q * cell_indexes
                + cell_indexes) by (nonlinear_arith);
            assert(rr == (steps + 1) * (steps + 1) && cell_indexes == 6 * (steps * steps)) by (nonlinear_arith)
                requires
                    rr == row_len * row_len,
                    row_len == steps + 1,
                    cell_indexes == 6 * (steps * steps),
            ;
        }
        let p00 = grid.corner(w, h);
        let p01 = grid.corner(w, h + 1);
        let p10 = grid.corner(w + 1, h);
        let p11 = grid.corner(w + 1, h + 1);
        let gx = geometric_coefficients(&p00, &p01, &p10, &p11, Axis::X);
        let gy = geometric_coefficients(&p00, &p01, &p10, &p11, Axis::Y);
        let gr = color_coefficients(&p00, &p01, &p10, &p11, ColorAxis::R);
        let gg = color_coefficients(&p00, &p01, &p10, &p11, ColorAxis::G);
        let gb = color_coefficients(&p00, &p01, &p10, &p11, ColorAxis::B);
        let index_start: usize = positions.len();
        let ghost pos_before = positions@;
        let ghost col_before = colors@;
        let ghost idx_before = indexes@;
        push_patch_samples(&mut positions, &mut colors, &gx, &gy, &gr, &gg, &gb, steps);
        push_patch_indexes(&mut indexes, index_start, steps);
        proof {
            let ghost sz = (steps + 1) * (steps + 1);
            assert forall|q0: int, v: int| 0 <= q0 < q + 1 && 0 <= v < sz implies {
                &&& #[trigger] positions@[q0 * sz + v] == sample_position(
                    *grid,
                    q0 / hm1 as int,
                    q0 % hm1 as int,
                    v / (steps + 1) as int,
                    v % (steps + 1) as int,
                    steps as int,
                )
                &&& colors@[q0 * sz + v] == sample_color(
                    *grid,
                    q0 / hm1 as int,
                    q0 % hm1 as int,
                    v / (steps + 1) as int,
                    v % (steps + 1) as int,
                    steps as int,
                )
            } by {
                lemma_block_before(q0, v, (q + 1) as int, sz);
                if q0 < q {
                    lemma_block_before(q0, v, q as int, sz);
                    assert(positions@[q0 * sz + v] == pos_before[q0 * sz + v]);
                } else {
                    assert(q0 * sz + v == index_start + v);
                    assert(positions@[index_start + v] == patch_position(
                        gx,
                        gy,
                        v / (steps + 1) as int,
                        v % (steps + 1) as int,
                        steps as int,
                    ));
                    assert(q0 / hm1 as int == w && q0 % hm1 as int == h);
                }
            }
            assert(samples_placed(positions@, colors@, *grid, q + 1, steps as int));
            let ghost ci = 6 * (steps * steps);
            assert forall|q0: int, n: int| 0 <= q0 < q + 1 && 0 <= n < ci implies #[trigger] indexes@[q0
                * ci + n] == patch_index(q0 * sz, n, steps as int) by {
                lemma_block_before(q0, n, (q + 1) as int, ci);
                if q0 < q {
                    lemma_block_before(q0, n, q as int, ci);
                    assert(indexes@[q0 * ci + n] == idx_before[q0 * ci + n]);
                } else {
                    assert(q0 * ci + n == idx_before.len() + n);
                    assert(q0 * sz == index_start);
                    assert(indexes@[idx_before.len() + n] == patch_index(
                        index_start as int,
                        n,
                        steps as int,
                    ));
                }
            }
            assert(indexes_placed(indexes@, q + 1, steps as int));
            assert forall|k: int| 0 <= k < indexes.len() implies #[trigger] indexes@[k] < (q + 1)
                * rr by {
                if k < idx_before.len() {
                    assert(indexes@[k] == idx_before[k]);
                } else {
                    assert(indexes@[idx_before.len() + (k - idx_before.len())] < index_start + rr);
                }
            }
        }
        q = q + 1;
    }
    MeshArtifact { positions, colors, indexes }
}

/// The corner samples of every patch are its control points: the vertices
/// at `(u, v) = (0, 0), (1, 0), (0, 1), (1, 1)` of the patch at column `w`,
/// row `h` are the output-space positions and the colors of the points at
/// `(w, h)`, `(w, h + 1)`, `(w + 1, h)` and `(w + 1, h + 1)`.
pub proof fn lemma_patch_corner_samples(grid: ControlGrid, w: int, h: int, d: int)
    requires
        d > 0,
    ensures
        sample_position(grid, w, h, 0, 0, d) == output_spec(grid.point_spec(w, h).position),
        sample_position(grid, w, h, d, 0, d) == output_spec(grid.point_spec(w, h + 1).position),
        sample_position(grid, w, h, 0, d, d) == output_spec(grid.point_spec(w + 1, h).position),
        sample_position(grid, w, h, d, d, d) == output_spec(grid.point_spec(w + 1, h + 1).position),
        sample_color(grid, w, h, 0, 0, d) == grid.point_spec(w, h).color,
        sample_color(grid, w, h, d, 0, d) == grid.point_spec(w, h + 1).color,
        sample_color(grid, w, h, 0, d, d) == grid.point_spec(w + 1, h).color,
        sample_color(grid, w, h, d, d, d) == grid.point_spec(w + 1, h + 1).color,
{
    let p00 = grid.point_spec(w, h);
    let p01 = grid.point_spec(w, h + 1);
    let p10 = grid.point_spec(w + 1, h);
    let p11 = grid.point_spec(w + 1, h + 1);
    lemma_field_corners(geometric_spec(p00, p01, p10, p11, Axis::X), d);
    lemma_field_corners(geometric_spec(p00, p01, p10, p11, Axis::Y), d);
    lemma_field_corners(color_spec(p00, p01, p10, p11, ColorAxis::R), d);
    lemma_field_corners(color_spec(p00, p01, p10, p11, ColorAxis::G), d);
    lemma_field_corners(color_spec(p00, p01, p10, p11, ColorAxis::B), d);
    assert(sample_position(grid, w, h, 0, 0, d) == output_spec([p00.position[0], p00.position[1]]));
    assert([p00.position[0], p00.position[1]] =~= p00.position);
    assert([p01.position[0], p01.position[1]] =~= p01.position);
    assert([p10.position[0], p10.position[1]] =~= p10.position);
    assert([p11.position[0], p11.position[1]] =~= p11.position);
    assert([p00.color[0], p00.color[1], p00.color[2]] =~= p00.color);
    assert([p01.color[0], p01.color[1], p01.color[2]] =~= p01.color);
    assert([p10.color[0], p10.color[1], p10.color[2]] =~= p10.color);
    assert([p11.color[0], p11.color[1], p11.color[2]] =~= p11.color);
}

} // verus!
