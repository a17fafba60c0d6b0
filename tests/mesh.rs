use mesh_gradient::error::MeshError;
use mesh_gradient::grid::{ControlGrid, ControlPoint, UNIT};
use mesh_gradient::hermite::evaluate;
use mesh_gradient::patch::{
    color_coefficients, ferguson_patch_col, ferguson_patch_pt, geometric_coefficients,
    to_output_space, Axis, ColorAxis,
};
use mesh_gradient::preview::{draw_across_ferguson_axis, draw_hermite_from_geom};
use mesh_gradient::tessellate::construct_mesh;

const BLACK: [i64; 3] = [0, 0, 0];
const BLUE: [i64; 3] = [0, 0, UNIT];
const GREEN: [i64; 3] = [0, UNIT, 0];

fn striped_grid() -> ControlGrid {
    ControlGrid::build(
        3,
        3,
        vec![BLACK, BLACK, BLACK, BLUE, BLUE, BLUE, GREEN, GREEN, GREEN],
    )
    .unwrap()
}

fn corners(grid: &ControlGrid, w: usize, h: usize) -> [ControlPoint; 4] {
    [
        grid.point_at(w, h).unwrap(),
        grid.point_at(w, h + 1).unwrap(),
        grid.point_at(w + 1, h).unwrap(),
        grid.point_at(w + 1, h + 1).unwrap(),
    ]
}

#[test]
fn build_places_points_evenly() {
    let grid = striped_grid();
    assert_eq!(grid.width(), 3);
    assert_eq!(grid.height(), 3);
    assert_eq!(grid.point_at(0, 0).unwrap().position, [0, 0]);
    assert_eq!(grid.point_at(1, 0).unwrap().position, [UNIT / 2, 0]);
    assert_eq!(grid.point_at(2, 1).unwrap().position, [UNIT, UNIT / 2]);
    assert_eq!(grid.point_at(1, 2).unwrap().position, [UNIT / 2, UNIT]);
    assert_eq!(grid.point_at(2, 1).unwrap().color, BLUE);
    assert_eq!(grid.point_at(0, 2).unwrap().color, GREEN);
}

#[test]
fn build_positions_round_down() {
    let grid = ControlGrid::build(4, 2, vec![BLACK; 8]).unwrap();
    assert_eq!(grid.point_at(1, 0).unwrap().position, [21845, 0]);
    assert_eq!(grid.point_at(2, 1).unwrap().position, [43690, UNIT]);
    assert_eq!(grid.point_at(3, 1).unwrap().u_tangent, [21845, 0]);
}

#[test]
fn build_rejects_small_dimensions() {
    assert_eq!(
        ControlGrid::build(1, 3, vec![BLACK; 3]).err(),
        Some(MeshError::InvalidInput)
    );
    assert_eq!(
        ControlGrid::build(3, 1, vec![BLACK; 3]).err(),
        Some(MeshError::InvalidInput)
    );
}

#[test]
fn build_rejects_color_count_mismatch() {
    assert_eq!(
        ControlGrid::build(3, 3, vec![BLACK; 8]).err(),
        Some(MeshError::InvalidInput)
    );
    assert_eq!(
        ControlGrid::build(2, 2, vec![BLACK; 5]).err(),
        Some(MeshError::InvalidInput)
    );
}

#[test]
fn point_at_out_of_range() {
    let grid = striped_grid();
    assert_eq!(grid.point_at(3, 0).err(), Some(MeshError::IndexOutOfRange));
    assert_eq!(grid.point_at(0, 3).err(), Some(MeshError::IndexOutOfRange));
}

#[test]
fn tangents_depend_on_shape_only() {
    let grid = ControlGrid::build(5, 3, vec![GREEN; 15]).unwrap();
    for h in 0..3 {
        for w in 0..5 {
            let p = grid.point_at(w, h).unwrap();
            assert_eq!(p.u_tangent, [UNIT / 4, 0]);
            assert_eq!(p.v_tangent, [0, UNIT / 2]);
        }
    }
}

#[test]
fn moving_a_point_keeps_tangents() {
    let mut grid = striped_grid();
    let before = grid.point_at(1, 1).unwrap();
    assert_eq!(grid.set_position(1, 1, [1234, -5678]), Ok(()));
    let after = grid.point_at(1, 1).unwrap();
    assert_eq!(after.position, [1234, -5678]);
    assert_eq!(after.u_tangent, before.u_tangent);
    assert_eq!(after.v_tangent, before.v_tangent);
    assert_eq!(after.color, before.color);
    for h in 0..3 {
        for w in 0..3 {
            let p = grid.point_at(w, h).unwrap();
            assert_eq!(p.u_tangent, [UNIT / 2, 0]);
            assert_eq!(p.v_tangent, [0, UNIT / 2]);
        }
    }
}

#[test]
fn setters_reject_out_of_range() {
    let mut grid = striped_grid();
    assert_eq!(grid.set_position(3, 0, [0, 0]), Err(MeshError::IndexOutOfRange));
    assert_eq!(grid.set_color(0, 5, BLUE), Err(MeshError::IndexOutOfRange));
    assert_eq!(grid.set_color(2, 2, BLUE), Ok(()));
    assert_eq!(grid.point_at(2, 2).unwrap().color, BLUE);
}

#[test]
fn corners_are_exact() {
    let mut grid = striped_grid();
    grid.set_position(1, 1, [30000, 40000]).unwrap();
    grid.set_color(1, 1, [100, 200, 300]).unwrap();
    let [p00, p01, p10, p11] = corners(&grid, 0, 0);
    let gx = geometric_coefficients(&p00, &p01, &p10, &p11, Axis::X);
    let gy = geometric_coefficients(&p00, &p01, &p10, &p11, Axis::Y);
    let gr = color_coefficients(&p00, &p01, &p10, &p11, ColorAxis::R);
    let gg = color_coefficients(&p00, &p01, &p10, &p11, ColorAxis::G);
    let gb = color_coefficients(&p00, &p01, &p10, &p11, ColorAxis::B);
    for d in [1u64, 2, 7] {
        assert_eq!(ferguson_patch_pt(0, 0, d, &gx, &gy), p00.position);
        assert_eq!(ferguson_patch_pt(d, 0, d, &gx, &gy), p01.position);
        assert_eq!(ferguson_patch_pt(0, d, d, &gx, &gy), p10.position);
        assert_eq!(ferguson_patch_pt(d, d, d, &gx, &gy), p11.position);
        assert_eq!(ferguson_patch_col(0, 0, d, &gr, &gg, &gb), p00.color);
        assert_eq!(ferguson_patch_col(d, 0, d, &gr, &gg, &gb), p01.color);
        assert_eq!(ferguson_patch_col(0, d, d, &gr, &gg, &gb), p10.color);
        assert_eq!(ferguson_patch_col(d, d, d, &gr, &gg, &gb), p11.color);
    }
}

#[test]
fn evaluate_follows_the_hermite_formula() {
    let grid = striped_grid();
    let [p00, p01, p10, p11] = corners(&grid, 0, 0);
    let gx = geometric_coefficients(&p00, &p01, &p10, &p11, Axis::X);
    // On an undisturbed grid the x field is v / 2 along this patch.
    assert_eq!(evaluate(&gx, 0, 1, 3), 10922);
    assert_eq!(evaluate(&gx, 2, 1, 2), UNIT / 4);
    assert_eq!(evaluate(&gx, 1, 2, 3), 21845);
    // A coefficient matrix with a single slope term: G[0][2] weighs
    // (u³ - 2u² + u) at v = 0; at u = 1/3 that is 4/27.
    let mut g = [[0i64; 4]; 4];
    g[2][0] = 27 * 1000;
    assert_eq!(evaluate(&g, 1, 0, 3), 4000);
    // Rounded down, also for negative values.
    g[2][0] = -27 * 1000 - 1;
    assert_eq!(evaluate(&g, 1, 0, 3), -4001);
}

#[test]
fn color_blend_is_bilinear_at_halves() {
    let grid = ControlGrid::build(
        2,
        2,
        vec![[0, 0, 0], [UNIT, 0, 400], [0, UNIT, 800], [UNIT, UNIT, 1202]],
    )
    .unwrap();
    let [p00, p01, p10, p11] = corners(&grid, 0, 0);
    let gr = color_coefficients(&p00, &p01, &p10, &p11, ColorAxis::R);
    let gg = color_coefficients(&p00, &p01, &p10, &p11, ColorAxis::G);
    let gb = color_coefficients(&p00, &p01, &p10, &p11, ColorAxis::B);
    // p00 = black, p10 = (1, 0, 400), p01 = (0, 1, 800), p11 = (1, 1, 1202).
    assert_eq!(ferguson_patch_col(1, 1, 2, &gr, &gg, &gb), [UNIT / 2, UNIT / 2, 600]);
    assert_eq!(ferguson_patch_col(1, 0, 2, &gr, &gg, &gb), [0, UNIT / 2, 400]);
    assert_eq!(ferguson_patch_col(0, 1, 2, &gr, &gg, &gb), [UNIT / 2, 0, 200]);
    assert_eq!(ferguson_patch_col(2, 1, 2, &gr, &gg, &gb), [UNIT / 2, UNIT, 1001]);
}

#[test]
fn output_space_mapping() {
    assert_eq!(to_output_space([UNIT / 2, UNIT / 2]), [0, 0, 0]);
    assert_eq!(to_output_space([0, 0]), [-UNIT, UNIT, 0]);
    assert_eq!(to_output_space([UNIT, UNIT]), [UNIT, -UNIT, 0]);
    assert_eq!(to_output_space([UNIT / 4, UNIT]), [-UNIT / 2, -UNIT, 0]);
}

#[test]
fn three_by_three_without_subdivision() {
    let grid = striped_grid();
    let mesh = construct_mesh(&grid, 0);
    assert_eq!(mesh.positions.len(), 16);
    assert_eq!(mesh.colors.len(), 16);
    assert_eq!(mesh.indexes.len(), 24);
    // Patch (0, 0): samples (u, v) = (0,0), (0,1), (1,0), (1,1).
    assert_eq!(mesh.positions[0], to_output_space(grid.point_at(0, 0).unwrap().position));
    assert_eq!(mesh.positions[1], to_output_space(grid.point_at(1, 0).unwrap().position));
    assert_eq!(mesh.positions[2], to_output_space(grid.point_at(0, 1).unwrap().position));
    assert_eq!(mesh.positions[3], to_output_space(grid.point_at(1, 1).unwrap().position));
    assert_eq!(mesh.positions[0], [-UNIT, UNIT, 0]);
    assert_eq!(mesh.positions[3], [0, 0, 0]);
    assert_eq!(mesh.colors[0], BLACK);
    assert_eq!(mesh.colors[1], BLACK);
    assert_eq!(mesh.colors[2], BLUE);
    assert_eq!(mesh.colors[3], BLUE);
    // Each patch: two triangles over its own four vertices.
    assert_eq!(&mesh.indexes[0..6], &[2, 1, 0, 2, 3, 1]);
    assert_eq!(&mesh.indexes[6..12], &[6, 5, 4, 6, 7, 5]);
    assert_eq!(&mesh.indexes[18..24], &[14, 13, 12, 14, 15, 13]);
    // The second patch is (w, h) = (0, 1): from (0, 1) to (1, 2).
    assert_eq!(mesh.positions[4], to_output_space(grid.point_at(0, 1).unwrap().position));
    assert_eq!(mesh.positions[7], to_output_space(grid.point_at(1, 2).unwrap().position));
    assert_eq!(mesh.colors[7], GREEN);
}

#[test]
fn vertex_and_index_counts() {
    let colors = vec![GREEN; 12];
    let grid = ControlGrid::build(4, 3, colors).unwrap();
    for subdivs in [0usize, 1, 2, 5] {
        let mesh = construct_mesh(&grid, subdivs);
        let per = (subdivs + 2) * (subdivs + 2);
        assert_eq!(mesh.positions.len(), 3 * 2 * per);
        assert_eq!(mesh.colors.len(), 3 * 2 * per);
        assert_eq!(mesh.indexes.len(), 3 * 2 * (subdivs + 1) * (subdivs + 1) * 6);
        assert_eq!(mesh.indexes.len() % 3, 0);
        for &k in &mesh.indexes {
            assert!((k as usize) < mesh.positions.len());
        }
    }
}

#[test]
fn subdivided_patch_triangulation() {
    let grid = ControlGrid::build(2, 2, vec![BLUE; 4]).unwrap();
    let mesh = construct_mesh(&grid, 3);
    assert_eq!(mesh.positions.len(), 25);
    assert_eq!(mesh.indexes.len(), 96);
    assert_eq!(&mesh.indexes[0..6], &[5, 1, 0, 5, 6, 1]);
    assert_eq!(&mesh.indexes[6..12], &[6, 2, 1, 6, 7, 2]);
    assert_eq!(&mesh.indexes[90..96], &[23, 19, 18, 23, 24, 19]);
    assert!(mesh.colors.iter().all(|c| *c == BLUE));
    // The middle sample of the single patch is the middle of the square.
    assert_eq!(mesh.positions[12], [0, 0, 0]);
}

#[test]
fn edge_and_interior_preview_samples() {
    let grid = striped_grid();
    let [p00, p01, p10, p11] = corners(&grid, 0, 0);
    let gx = geometric_coefficients(&p00, &p01, &p10, &p11, Axis::X);
    let gy = geometric_coefficients(&p00, &p01, &p10, &p11, Axis::Y);
    let gr = color_coefficients(&p00, &p01, &p10, &p11, ColorAxis::R);
    let gg = color_coefficients(&p00, &p01, &p10, &p11, ColorAxis::G);
    let gb = color_coefficients(&p00, &p01, &p10, &p11, ColorAxis::B);

    let (points, colors) = draw_across_ferguson_axis(&gx, &gy, &gr, &gg, &gb, false, 2, Axis::X);
    assert_eq!(points, vec![[0, 0], [0, UNIT / 4], [0, UNIT / 2]]);
    assert_eq!(colors, vec![[0, 0, 0], [0, 0, UNIT / 2], [0, 0, UNIT]]);

    let (points, _) = draw_across_ferguson_axis(&gx, &gy, &gr, &gg, &gb, true, 2, Axis::Y);
    assert_eq!(points, vec![[0, UNIT / 2], [UNIT / 4, UNIT / 2], [UNIT / 2, UNIT / 2]]);

    let (points, colors) = draw_hermite_from_geom(&gx, &gy, &gr, &gg, &gb, 2);
    assert_eq!(
        points,
        vec![[0, 0], [UNIT / 4, 0], [0, UNIT / 4], [UNIT / 4, UNIT / 4]]
    );
    assert_eq!(colors.len(), 4);
    assert_eq!(colors[2], [0, 0, UNIT / 2]);
}
