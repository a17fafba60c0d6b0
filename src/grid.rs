use vstd::prelude::*;
use vstd::arithmetic::div_mod::*;
use vstd::arithmetic::mul::*;
use crate::error::MeshError;

verus! {

/// The fixed-point one: a scalar `x` stands for the real number `x / UNIT`.
pub const UNIT: i64 = 65536;

/// Largest magnitude of a control point's position component (256 units).
pub const LIMIT: i64 = 16777216;

/// A position component that a control point may hold.
pub open spec fn in_range(x: int) -> bool {
    -LIMIT <= x <= LIMIT
}

/// A color channel value: between zero and one.
pub open spec fn channel_ok(x: int) -> bool {
    0 <= x <= UNIT
}

pub open spec fn color_ok(c: [i64; 3]) -> bool {
    channel_ok(c[0] as int) && channel_ok(c[1] as int) && channel_ok(c[2] as int)
}

/// `k / (n - 1)` in fixed point, rounded down: the coordinate of the `k`-th of
/// `n` evenly spaced grid lines across the unit interval.
pub open spec fn grid_coord(k: int, n: int) -> int {
    k * (UNIT as int) / (n - 1)
}

/// `1 / (n - 1)` in fixed point, rounded down: the tangent length along a grid
/// dimension of `n` points.
pub open spec fn tangent_step(n: int) -> int {
    (UNIT as int) / (n - 1)
}

/// Every stored component of the point lies within `LIMIT` of zero.
pub open spec fn point_bounded(p: ControlPoint) -> bool {
    &&& -LIMIT <= p.position[0] <= LIMIT
    &&& -LIMIT <= p.position[1] <= LIMIT
    &&& -LIMIT <= p.u_tangent[0] <= LIMIT
    &&& -LIMIT <= p.u_tangent[1] <= LIMIT
    &&& -LIMIT <= p.v_tangent[0] <= LIMIT
    &&& -LIMIT <= p.v_tangent[1] <= LIMIT
    &&& -LIMIT <= p.color[0] <= LIMIT
    &&& -LIMIT <= p.color[1] <= LIMIT
    &&& -LIMIT <= p.color[2] <= LIMIT
}

/// A user-placed anchor: position, color, and the two tangent vectors.
#[derive(Debug, Clone, Copy)]
pub struct ControlPoint {
    pub position: [i64; 2],
    pub u_tangent: [i64; 2],
    pub v_tangent: [i64; 2],
    pub color: [i64; 3],
}

impl ControlPoint {
    /// The tangents that every point of a `width` by `height` grid carries.
    pub open spec fn tangents_for(&self, width: int, height: int) -> bool {
        &&& self.u_tangent[0] == tangent_step(width)
        &&& self.u_tangent[1] == 0
        &&& self.v_tangent[0] == 0
        &&& self.v_tangent[1] == tangent_step(height)
    }

    pub open spec fn bounded(&self) -> bool {
        &&& in_range(self.position[0] as int)
        &&& in_range(self.position[1] as int)
        &&& color_ok(self.color)
    }

    /// A point of a `grid_w` by `grid_h` grid, with the tangents of that grid.
    pub fn new(position: [i64; 2], color: [i64; 3], grid_w: usize, grid_h: usize) -> (r:
        ControlPoint)
        requires
            grid_w >= 2,
            grid_h >= 2,
        ensures
            r.position == position,
            r.color == color,
            r.tangents_for(grid_w as int, grid_h as int),
    {
        let su: u64 = 65536u64 / (grid_w as u64 - 1);
        let sv: u64 = 65536u64 / (grid_h as u64 - 1);
        proof {
            lemma_div_is_ordered_by_denominator(65536, 1, (grid_w - 1) as int);
            lemma_div_is_ordered_by_denominator(65536, 1, (grid_h - 1) as int);
        }
        ControlPoint {
            position,
            u_tangent: [su as i64, 0],
            v_tangent: [0, sv as i64],
            color,
        }
    }
}

/// A `width` by `height` grid of control points stored row by row.
pub struct ControlGrid {
    width: usize,
    height: usize,
    points: Vec<ControlPoint>,
}

/// `(h * width + w) / width == h` and `(h * width + w) % width == w`.
pub proof fn lemma_cell_index(w: int, h: int, width: int)
    requires
        0 <= w < width,
        0 <= h,
    ensures
        (h * width + w) / width == h,
        (h * width + w) % width == w,
{
    lemma_fundamental_div_mod_converse(h * width + w, width, h, w);
}

/// A cell of a `width` by `height` grid has a row-major index below `width * height`.
pub proof fn lemma_cell_in_grid(w: int, h: int, width: int, height: int)
    requires
        0 <= w < width,
        0 <= h < height,
    ensures
        0 <= h * width + w < width * height,
{
    assert(0 <= h * width + w < width * height) by (nonlinear_arith)
        requires
            0 <= w < width,
            0 <= h < height,
    ;
}

impl ControlGrid {
    pub closed spec fn grid_width(&self) -> int {
        self.width as int
    }

    pub closed spec fn grid_height(&self) -> int {
        self.height as int
    }

    /// The points, row by row.
    pub closed spec fn points_seq(&self) -> Seq<ControlPoint> {
        self.points@
    }

    /// The point at column `w`, row `h`.
    pub open spec fn point_spec(&self, w: int, h: int) -> ControlPoint {
        self.points_seq()[h * self.grid_width() + w]
    }

    pub open spec fn wf(&self) -> bool {
        &&& self.grid_width() >= 2
        &&& self.grid_height() >= 2
        &&& self.points_seq().len() == self.grid_width() * self.grid_height()
        &&& forall|k: int|
            #![trigger self.points_seq()[k]]
            0 <= k < self.points_seq().len() ==> {
                &&& self.points_seq()[k].tangents_for(self.grid_width(), self.grid_height())
                &&& self.points_seq()[k].bounded()
            }
    }

    pub fn width(&self) -> (r: usize)
        ensures
            r == self.grid_width(),
    {
        self.width
    }

    pub fn height(&self) -> (r: usize)
        ensures
            r == self.grid_height(),
    {
        self.height
    }

    /// Builds the grid from its colors in row-major order; the point at column
    /// `i`, row `j` sits at `(i / (width - 1), j / (height - 1))`.
    pub fn build(width: usize, height: usize, colors: Vec<[i64; 3]>) -> (r: Result<
        ControlGrid,
        MeshError,
    >)
        requires
            forall|k: int| 0 <= k < colors.len() ==> color_ok(#[trigger] colors@[k]),
        ensures
            r is Err <==> (width < 2 || height < 2 || colors.len() != width * height),
            r is Err ==> r == Err::<ControlGrid, MeshError>(MeshError::InvalidInput),
            r matches Ok(g) ==> {
                &&& g.wf()
                &&& g.grid_width() == width
                &&& g.grid_height() == height
                &&& forall|w: int, h: int|
                    0 <= w < width && 0 <= h < height ==> {
                        &&& (#[trigger] g.point_spec(w, h)).position[0] == grid_coord(
                            w,
                            width as int,
                        )
                        &&& g.point_spec(w, h).position[1] == grid_coord(h, height as int)
                        &&& g.point_spec(w, h).color == colors@[h * width + w]
                    }
            },
    {
        if width < 2 || height < 2 {
            return Err(MeshError::InvalidInput);
        }
        let total: usize = match width.checked_mul(height) {
            Some(t) => t,
            None => {
                return Err(MeshError::InvalidInput);
            },
        };
        if colors.len() != total {
            return Err(MeshError::InvalidInput);
        }
        let mut points: Vec<ControlPoint> = Vec::with_capacity(total);
        let mut k: usize = 0;
        while k < total
            invariant
                width >= 2,
                height >= 2,
                total == width * height,
                colors.len() == total,
                forall|m: int| 0 <= m < colors.len() ==> color_ok(#[trigger] colors@[m]),
                k <= total,
                points.len() == k,
                forall|m: int|
                    #![trigger points@[m]]
                    0 <= m < k ==> {
                        &&& points@[m].tangents_for(width as int, height as int)
                        &&& points@[m].bounded()
                        &&& points@[m].position[0] == grid_coord(m % width as int, width as int)
                        &&& points@[m].position[1] == grid_coord(m / width as int, height as int)
                        &&& points@[m].color == colors@[m]
                    },
            decreases total - k,
        {
            let i: usize = k % width;
            let j: usize = k / width;
            proof {
                lemma_div_is_ordered(k as int, total as int, width as int);
                lemma_div_by_multiple(height as int, width as int);
                lemma_mul_is_commutative(width as int, height as int);
                if j >= height {
                    lemma_fundamental_div_mod(k as int, width as int);
                    lemma_mul_inequality(height as int, j as int, width as int);
                }
            }
            let x: i64 = Self::coord(i, width);
            let y: i64 = Self::coord(j, height);
            let p = ControlPoint::new([x, y], colors[k], width, height);
            points.push(p);
            k = k + 1;
        }
        let g = ControlGrid { width, height, points };
        assert forall|w: int, h: int| 0 <= w < width && 0 <= h < height implies {
            &&& (#[trigger] g.point_spec(w, h)).position[0] == grid_coord(w, width as int)
            &&& g.point_spec(w, h).position[1] == grid_coord(h, height as int)
            &&& g.point_spec(w, h).color == colors@[h * width + w]
        } by {
            lemma_cell_index(w, h, width as int);
            lemma_cell_in_grid(w, h, width as int, height as int);
        }
        Ok(g)
    }

    /// The point at column `w`, row `h`.
    pub fn point_at(&self, w: usize, h: usize) -> (r: Result<ControlPoint, MeshError>)
        requires
            self.wf(),
        ensures
            r is Err <==> (w >= self.grid_width() || h >= self.grid_height()),
            r is Err ==> r == Err::<ControlPoint, MeshError>(MeshError::IndexOutOfRange),
            r matches Ok(p) ==> p == self.point_spec(w as int, h as int),
    {
        if w >= self.width || h >= self.height {
            return Err(MeshError::IndexOutOfRange);
        }
        let _n: usize = self.points.len();
        proof {
            lemma_cell_in_grid(w as int, h as int, self.width as int, self.height as int);
        }
        Ok(self.points[h * self.width + w])
    }

    /// Moves the point at column `w`, row `h`; its tangents and color stay.
    pub fn set_position(&mut self, w: usize, h: usize, position: [i64; 2]) -> (r: Result<
        (),
        MeshError,
    >)
        requires
            old(self).wf(),
            in_range(position[0] as int),
            in_range(position[1] as int),
        ensures
            final(self).wf(),
            final(self).grid_width() == old(self).grid_width(),
            final(self).grid_height() == old(self).grid_height(),
            r is Err <==> (w >= old(self).grid_width() || h >= old(self).grid_height()),
            r is Err ==> r == Err::<(), MeshError>(MeshError::IndexOutOfRange) && *final(self)
                == *old(self),
            r is Ok ==> final(self).points_seq() == old(self).points_seq().update(
                h * old(self).grid_width() + w,
                ControlPoint { position, ..old(self).point_spec(w as int, h as int) },
            ),
    {
        if w >= self.width || h >= self.height {
            return Err(MeshError::IndexOutOfRange);
        }
        let _n: usize = self.points.len();
        proof {
            lemma_cell_in_grid(w as int, h as int, self.width as int, self.height as int);
        }
        let idx = h * self.width + w;
        let mut p = self.points[idx];
        p.position = position;
        self.points.set(idx, p);
        Ok(())
    }

    /// Recolors the point at column `w`, row `h`; its position and tangents stay.
    pub fn set_color(&mut self, w: usize, h: usize, color: [i64; 3]) -> (r: Result<
        (),
        MeshError,
    >)
        requires
            old(self).wf(),
            color_ok(color),
        ensures
            final(self).wf(),
            final(self).grid_width() == old(self).grid_width(),
            final(self).grid_height() == old(self).grid_height(),
            r is Err <==> (w >= old(self).grid_width() || h >= old(self).grid_height()),
            r is Err ==> r == Err::<(), MeshError>(MeshError::IndexOutOfRange) && *final(self)
                == *old(self),
            r is Ok ==> final(self).points_seq() == old(self).points_seq().update(
                h * old(self).grid_width() + w,
                ControlPoint { color, ..old(self).point_spec(w as int, h as int) },
            ),
    {
        if w >= self.width || h >= self.height {
            return Err(MeshError::IndexOutOfRange);
        }
        let _n: usize = self.points.len();
        proof {
            lemma_cell_in_grid(w as int, h as int, self.width as int, self.height as int);
        }
        let idx = h * self.width + w;
        let mut p = self.points[idx];
        p.color = color;
        self.points.set(idx, p);
        Ok(())
    }

    /// The point at column `w`, row `h` of a well-formed grid, with its bounds.
    pub(crate) fn corner(&self, w: usize, h: usize) -> (r: ControlPoint)
        requires
            self.wf(),
            w < self.grid_width(),
            h < self.grid_height(),
        ensures
            r == self.point_spec(w as int, h as int),
            point_bounded(r),
    {
        let _n: usize = self.points.len();
        proof {
            lemma_cell_in_grid(w as int, h as int, self.width as int, self.height as int);
            lemma_div_is_ordered_by_denominator(UNIT as int, 1, (self.width - 1) as int);
            lemma_div_is_ordered_by_denominator(UNIT as int, 1, (self.height - 1) as int);
        }
        self.points[h * self.width + w]
    }

    /// The number of patches, `(width - 1) * (height - 1)`.
    pub fn patch_count(&self) -> (r: usize)
        requires
            self.wf(),
        ensures
            r == (self.grid_width() - 1) * (self.grid_height() - 1),
    {
        let _n: usize = self.points.len();
        proof {
            assert((self.width - 1) * (self.height - 1) <= self.width * self.height) by (nonlinear_arith)
                requires
                    self.width >= 2,
                    self.height >= 2,
            ;
        }
        (self.width - 1) * (self.height - 1)
    }

    /// `k / (n - 1)` in fixed point, for `k < n`.
    fn coord(k: usize, n: usize) -> (r: i64)
        requires
            k < n,
            n >= 2,
        ensures
            r == grid_coord(k as int, n as int),
            0 <= r <= UNIT,
    {
        let num: u128 = k as u128 * 65536u128;
        let q: u128 = num / (n as u128 - 1);
        proof {
            lemma_mul_inequality(k as int, (n - 1) as int, 65536);
            lemma_div_is_ordered(num as int, ((n - 1) * 65536) as int, (n - 1) as int);
            lemma_div_by_multiple(65536, (n - 1) as int);
            lemma_mul_is_commutative(65536, (n - 1) as int);
        }
        q as i64
    }
}

/// Tangent invariance: in well-formed grids of one shape every point carries
/// the same tangents, whatever the points' positions and colors.
pub proof fn lemma_tangent_invariance(a: ControlGrid, b: ControlGrid, w1: int, h1: int, w2: int, h2: int)
    requires
        a.wf(),
        b.wf(),
        a.grid_width() == b.grid_width(),
        a.grid_height() == b.grid_height(),
        0 <= w1 < a.grid_width(),
        0 <= h1 < a.grid_height(),
        0 <= w2 < b.grid_width(),
        0 <= h2 < b.grid_height(),
    ensures
        a.point_spec(w1, h1).u_tangent == b.point_spec(w2, h2).u_tangent,
        a.point_spec(w1, h1).v_tangent == b.point_spec(w2, h2).v_tangent,
        a.point_spec(w1, h1).u_tangent[0] == tangent_step(a.grid_width()),
        a.point_spec(w1, h1).v_tangent[1] == tangent_step(a.grid_height()),
{
    lemma_cell_in_grid(w1, h1, a.grid_width(), a.grid_height());
    lemma_cell_in_grid(w2, h2, b.grid_width(), b.grid_height());
    let ta = a.point_spec(w1, h1);
    let tb = b.point_spec(w2, h2);
    assert(ta.u_tangent =~= tb.u_tangent);
    assert(ta.v_tangent =~= tb.v_tangent);
}

} // verus!
