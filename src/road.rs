use vstd::arithmetic::div_mod::{
    lemma_div_is_ordered, lemma_div_multiples_vanish, lemma_fundamental_div_mod,
    lemma_fundamental_div_mod_converse,
};
use vstd::prelude::*;

use crate::arith::floor_div;
use crate::section::{road_section, TextureSections};
use crate::terrain::{lemma_cell_index, lemma_index_of_bounds, Quad, Terrain, TerrainView};

verus! {

/// Radius of the window that `register_road` flattens around each point.
pub const ROAD_RADIUS: usize = 3;

/// First index of the window of radius `r` around `c`, clipped to the grid.
pub open spec fn lo_bound(c: int, r: int) -> int {
    if c - r < 0 {
        0
    } else {
        c - r
    }
}

/// One past the last index of the window of radius `r` around `c`, clipped to
/// a grid of `n` cells.
pub open spec fn hi_bound(c: int, r: int, n: int) -> int {
    if c + r + 1 > n {
        n
    } else {
        c + r + 1
    }
}

impl TerrainView {
    /// Cell `(x, z)` lies in the window of radius `r` around cell `(cx, cz)`,
    /// clipped to the grid.
    pub open spec fn in_window(self, cx: int, cz: int, r: int, x: int, z: int) -> bool {
        &&& lo_bound(cx, r) <= x < hi_bound(cx, r, self.size as int)
        &&& lo_bound(cz, r) <= z < hi_bound(cz, r, self.size as int)
    }

    /// Sum of the heights of row `z` over the columns `[x0, x1)`.
    pub open spec fn row_sum(self, z: int, x0: int, x1: int) -> int
        decreases x1 - x0,
    {
        if x1 <= x0 {
            0
        } else {
            self.row_sum(z, x0, x1 - 1) + self.cell(x1 - 1, z).height
        }
    }

    /// Sum of the heights over the rows `[z0, z1)` and the columns `[x0, x1)`.
    pub open spec fn block_sum(self, x0: int, x1: int, z0: int, z1: int) -> int
        decreases z1 - z0,
    {
        if z1 <= z0 {
            0
        } else {
            self.block_sum(x0, x1, z0, z1 - 1) + self.row_sum(z1 - 1, x0, x1)
        }
    }

    /// Number of cells in the clipped window around `(cx, cz)`.
    pub open spec fn window_count(self, cx: int, cz: int, r: int) -> int {
        (hi_bound(cx, r, self.size as int) - lo_bound(cx, r)) * (hi_bound(cz, r, self.size as int)
            - lo_bound(cz, r))
    }

    /// Mean height (rounded down) of the clipped window around `(cx, cz)`.
    pub open spec fn window_mean(self, cx: int, cz: int, r: int) -> int {
        self.block_sum(
            lo_bound(cx, r),
            hi_bound(cx, r, self.size as int),
            lo_bound(cz, r),
            hi_bound(cz, r, self.size as int),
        ) / self.window_count(cx, cz, r)
    }

    /// The terrain after the window of radius `r` around cell `(cx, cz)` is
    /// levelled to its mean height and turned into road.
    pub open spec fn flatten(self, cx: int, cz: int, r: int) -> TerrainView {
        let m = self.window_mean(cx, cz, r);
        TerrainView {
            cells: Seq::new(
                self.cells.len(),
                |k: int|
                    if self.in_window(cx, cz, r, k % (self.size as int), k / (self.size as int)) {
                        Quad { height: m as i32, texture: road_section() }
                    } else {
                        self.cells[k]
                    },
            ),
            ..self
        }
    }
}

/// Least `k`, from `k` up, whose `k * k * s2` reaches `d2`: with `d2` the
/// squared length of a segment and `s2` the squared step, the number of
/// steps that cover the segment.
pub open spec fn least_cover(d2: int, s2: int, k: int) -> int
    decreases d2 - k,
{
    if k >= d2 || k * k * s2 >= d2 {
        k
    } else {
        least_cover(d2, s2, k + 1)
    }
}

/// Squared distance between two points.
pub open spec fn dist2(a: (i32, i32), b: (i32, i32)) -> int {
    (a.0 - b.0) * (a.0 - b.0) + (a.1 - b.1) * (a.1 - b.1)
}

/// Number of points placed on the segment from `b` back to `a`: its length
/// divided by the step `s`, rounded up.
pub open spec fn segment_steps(a: (i32, i32), b: (i32, i32), s: int) -> int {
    least_cover(dist2(a, b), s * s, 0)
}

/// Least `k`, from `k` up, whose successor squared exceeds `n`: from `0`,
/// the square root of `n` rounded down.
pub open spec fn floor_sqrt(n: int, k: int) -> int
    decreases n - k,
{
    if k >= n || (k + 1) * (k + 1) > n {
        k
    } else {
        floor_sqrt(n, k + 1)
    }
}

/// Length of the segment between `a` and `b`, rounded down.
pub open spec fn segment_length(a: (i32, i32), b: (i32, i32)) -> int {
    floor_sqrt(dist2(a, b), 0)
}

/// The points placed on the segment between `a` and `b`: they start at `b`
/// and go toward `a` one step `s` apart, where a step along the segment is
/// `s / len` of it (`len` the length rounded down); `a` itself is not among
/// them, and coordinates are rounded down.
pub open spec fn segment_points(a: (i32, i32), b: (i32, i32), s: int) -> Seq<(int, int)> {
    let n = segment_steps(a, b, s);
    let len = segment_length(a, b);
    Seq::new(
        n as nat,
        |i: int| (b.0 + (a.0 - b.0) * (i * s) / len, b.1 + (a.1 - b.1) * (i * s) / len),
    )
}

/// The points placed along a path: those of each pair of consecutive
/// waypoints, in order.
pub open spec fn path_points(path: Seq<(i32, i32)>, s: int) -> Seq<(int, int)>
    decreases path.len(),
{
    if path.len() < 2 {
        seq![]
    } else {
        path_points(path.drop_last(), s) + segment_points(
            path[path.len() - 2],
            path[path.len() - 1],
            s,
        )
    }
}

impl TerrainView {
    /// The terrain after carving at one world point: nothing changes where the
    /// point is off the terrain.
    pub open spec fn carve_at(self, p: (int, int), r: int) -> TerrainView {
        if self.contains(p.0, p.1) {
            self.flatten(self.index_of(p.0), self.index_of(p.1), r)
        } else {
            self
        }
    }

    /// The terrain after carving at each of the points, in order.
    pub open spec fn carve_points(self, pts: Seq<(int, int)>, r: int) -> TerrainView
        decreases pts.len(),
    {
        if pts.len() == 0 {
            self
        } else {
            self.carve_points(pts.drop_last(), r).carve_at(pts.last(), r)
        }
    }

    /// The terrain after a road of radius `r` is carved along a path.
    pub open spec fn carve(self, path: Seq<(i32, i32)>, r: int) -> TerrainView {
        self.carve_points(path_points(path, self.scale as int), r)
    }
}

/// `least_cover` from `j` finds the least cover at or above `j`.
proof fn lemma_least_cover(d2: int, s2: int, j: int)
    requires
        d2 >= 0,
        s2 >= 1,
        j >= 0,
        j == 0 || (j - 1) * (j - 1) * s2 < d2,
    ensures
        least_cover(d2, s2, j) >= 0,
        least_cover(d2, s2, j) * least_cover(d2, s2, j) * s2 >= d2,
        least_cover(d2, s2, j) == 0 || (least_cover(d2, s2, j) - 1) * (least_cover(d2, s2, j) - 1) * s2 < d2,
    decreases d2 - j,
{
    if j >= d2 || j * j * s2 >= d2 {
        if j >= 1 {
            assert(j * j * s2 >= j) by (nonlinear_arith)
                requires
                    j >= 1,
                    s2 >= 1,
            ;
        } else {
            assert(j * j * s2 == 0) by (nonlinear_arith)
                requires
                    j == 0,
            ;
        }
    } else {
        lemma_least_cover(d2, s2, j + 1);
    }
}

/// The number of points on a segment is its length divided by the step,
/// rounded up: the least `k` for which `k` steps reach the segment's length.
pub proof fn lemma_segment_steps_ceiling(a: (i32, i32), b: (i32, i32), s: int)
    requires
        s > 0,
    ensures
        segment_steps(a, b, s) >= 0,
        segment_steps(a, b, s) * segment_steps(a, b, s) * (s * s) >= dist2(a, b),
        segment_steps(a, b, s) == 0 || (segment_steps(a, b, s) - 1) * (segment_steps(a, b, s) - 1) * (
        s * s) < dist2(a, b),
{
    let dx = a.0 - b.0;
    let dz = a.1 - b.1;
    assert(dx * dx + dz * dz >= 0) by (nonlinear_arith);
    assert(s * s >= 1) by (nonlinear_arith)
        requires
            s > 0,
    ;
    lemma_least_cover(dist2(a, b), s * s, 0);
}

/// Two well-formed terrains of one shape that agree on every cell are equal.
proof fn lemma_view_ext(a: TerrainView, b: TerrainView)
    requires
        a.wf(),
        b.wf(),
        a.size == b.size,
        a.scale == b.scale,
        forall|x: int, z: int| a.in_grid(x, z) ==> #[trigger] a.cell(x, z) == b.cell(x, z),
    ensures
        a == b,
{
    let n = a.size as int;
    assert forall|k: int| 0 <= k < a.cells.len() implies a.cells[k] == b.cells[k] by {
        lemma_fundamental_div_mod(k, n);
        let x = k % n;
        let z = k / n;
        assert(0 <= z < n) by (nonlinear_arith)
            requires
                k == n * z + x,
                0 <= x < n,
                0 <= k < n * n,
        ;
        assert(a.cell(x, z) == b.cell(x, z));
        assert(z * n + x == k) by (nonlinear_arith)
            requires
                k == n * z + x,
        ;
    }
    assert(a.cells =~= b.cells);
}

/// Distinct cells are stored at distinct places.
proof fn lemma_cell_index_injective(v: TerrainView, x: int, z: int, x2: int, z2: int)
    requires
        v.wf(),
        v.in_grid(x, z),
        v.in_grid(x2, z2),
        z * v.size + x == z2 * v.size + x2,
    ensures
        x == x2 && z == z2,
{
    let n = v.size as int;
    lemma_fundamental_div_mod_converse(z * n + x, n, z, x);
    lemma_fundamental_div_mod_converse(z2 * n + x2, n, z2, x2);
}

/// What `flatten` does to a single cell.
proof fn lemma_flatten_cell(v: TerrainView, cx: int, cz: int, r: int, x: int, z: int)
    requires
        v.wf(),
        v.in_grid(x, z),
    ensures
        v.flatten(cx, cz, r).wf(),
        v.flatten(cx, cz, r).cell(x, z) == (if v.in_window(cx, cz, r, x, z) {
            Quad { height: v.window_mean(cx, cz, r) as i32, texture: road_section() }
        } else {
            v.cell(x, z)
        }),
{
    let n = v.size as int;
    lemma_cell_index(v, x, z);
    lemma_fundamental_div_mod_converse(z * n + x, n, z, x);
}

/// The heights of a row lie between the bounds of `i32`, hence so does their sum
/// divided by their number.
proof fn lemma_row_sum_bounds(v: TerrainView, z: int, x0: int, x1: int)
    requires
        v.wf(),
        0 <= z < v.size,
        0 <= x0 <= x1 <= v.size,
    ensures
        (x1 - x0) * i32::MIN <= v.row_sum(z, x0, x1) <= (x1 - x0) * i32::MAX,
    decreases x1 - x0,
{
    if x1 > x0 {
        lemma_row_sum_bounds(v, z, x0, x1 - 1);
        lemma_cell_index(v, x1 - 1, z);
    }
}

proof fn lemma_block_sum_bounds(v: TerrainView, x0: int, x1: int, z0: int, z1: int)
    requires
        v.wf(),
        0 <= x0 <= x1 <= v.size,
        0 <= z0 <= z1 <= v.size,
    ensures
        (x1 - x0) * (z1 - z0) * i32::MIN <= v.block_sum(x0, x1, z0, z1) <= (x1 - x0) * (z1 - z0)
            * i32::MAX,
    decreases z1 - z0,
{
    if z1 > z0 {
        lemma_block_sum_bounds(v, x0, x1, z0, z1 - 1);
        lemma_row_sum_bounds(v, z1 - 1, x0, x1);
        let w = x1 - x0;
        assert(w * (z1 - z0) == w * (z1 - 1 - z0) + w) by (nonlinear_arith);
        assert(w * (z1 - z0) * i32::MIN == w * (z1 - 1 - z0) * i32::MIN + w * i32::MIN) by (
        nonlinear_arith)
            requires
                w * (z1 - z0) == w * (z1 - 1 - z0) + w,
        ;
        assert(w * (z1 - z0) * i32::MAX == w * (z1 - 1 - z0) * i32::MAX + w * i32::MAX) by (
        nonlinear_arith)
            requires
                w * (z1 - z0) == w * (z1 - 1 - z0) + w,
        ;
    }
}

/// A sum of `count` values of `i32`, divided by `count`, is a value of `i32`.
pub(crate) proof fn lemma_mean_bounds(sum: int, count: int)
    requires
        count > 0,
        count * i32::MIN <= sum <= count * i32::MAX,
    ensures
        i32::MIN <= sum / count <= i32::MAX,
{
    lemma_div_is_ordered(count * i32::MIN, sum, count);
    lemma_div_is_ordered(sum, count * i32::MAX, count);
    lemma_div_multiples_vanish(i32::MIN as int, count);
    lemma_div_multiples_vanish(i32::MAX as int, count);
}

/// The clipped window around a cell of the grid is a non-empty part of it.
proof fn lemma_window_shape(v: TerrainView, cx: int, cz: int, r: int)
    requires
        v.wf(),
        v.in_grid(cx, cz),
        r >= 0,
    ensures
        0 <= lo_bound(cx, r) < hi_bound(cx, r, v.size as int) <= v.size,
        0 <= lo_bound(cz, r) < hi_bound(cz, r, v.size as int) <= v.size,
        0 < v.window_count(cx, cz, r) <= v.size * v.size <= 32768 * 32768,
        i32::MIN <= v.window_mean(cx, cz, r) <= i32::MAX,
{
    let x0 = lo_bound(cx, r);
    let x1 = hi_bound(cx, r, v.size as int);
    let z0 = lo_bound(cz, r);
    let z1 = hi_bound(cz, r, v.size as int);
    let n = v.size as int;
    assert(0 < (x1 - x0) * (z1 - z0) <= n * n <= 32768 * 32768) by (nonlinear_arith)
        requires
            0 < x1 - x0 <= n,
            0 < z1 - z0 <= n,
            n <= 32768,
    ;
    lemma_block_sum_bounds(v, x0, x1, z0, z1);
    lemma_mean_bounds(v.block_sum(x0, x1, z0, z1), (x1 - x0) * (z1 - z0));
}

/// `floor_sqrt` from `j` finds the square root rounded down, `k`, wherever
/// `j` does not pass it.
proof fn lemma_floor_sqrt(n: int, j: int, k: int)
    requires
        0 <= j <= k,
        k * k <= n < (k + 1) * (k + 1),
    ensures
        floor_sqrt(n, j) == k,
    decreases k - j,
{
    if j >= n || (j + 1) * (j + 1) > n {
        if j < k {
            assert((j + 1) * (j + 1) <= k * k) by (nonlinear_arith)
                requires
                    0 <= j < k,
            ;
            if j >= n {
                assert(k * k >= k) by (nonlinear_arith)
                    requires
                        k >= 1,
                ;
            }
        }
    } else {
        if j == k {
        }
        lemma_floor_sqrt(n, j + 1, k);
    }
}

/// Every point of a segment lies at most its length from `b`: `i * s` never
/// passes the length rounded down.
proof fn lemma_step_within_length(a: (i32, i32), b: (i32, i32), s: int, i: int)
    requires
        s > 0,
        0 <= i < segment_steps(a, b, s),
        segment_length(a, b) * segment_length(a, b) <= dist2(a, b) < (segment_length(a, b) + 1) * (
        segment_length(a, b) + 1),
        segment_length(a, b) >= 0,
    ensures
        0 <= i * s <= segment_length(a, b),
{
    lemma_segment_steps_ceiling(a, b, s);
    let n = segment_steps(a, b, s);
    let l = segment_length(a, b);
    let d2 = dist2(a, b);
    assert(0 <= i * s) by (nonlinear_arith)
        requires
            i >= 0,
            s > 0,
    ;
    assert((i * s) * (i * s) <= (n - 1) * (n - 1) * (s * s)) by (nonlinear_arith)
        requires
            0 <= i <= n - 1,
            s > 0,
    ;
    if i * s > l {
        assert((i * s) * (i * s) >= (l + 1) * (l + 1)) by (nonlinear_arith)
            requires
                i * s >= l + 1,
                l >= 0,
        ;
    }
}

/// A rounded-down fraction `i / n` (with `0 <= i <= n`, `n > 0`) of `d` lies
/// between `0` and `d`.
proof fn lemma_fraction_between(d: int, i: int, n: int)
    requires
        0 <= i <= n,
        n > 0,
    ensures
        d >= 0 ==> 0 <= d * i / n <= d,
        d < 0 ==> d <= d * i / n <= 0,
{
    if d >= 0 {
        assert(0 <= d * i <= d * n) by (nonlinear_arith)
            requires
                d >= 0,
                0 <= i <= n,
        ;
        lemma_div_is_ordered(0, d * i, n);
        lemma_div_is_ordered(d * i, d * n, n);
        lemma_div_multiples_vanish(d, n);
        assert(d * n == n * d) by (nonlinear_arith);
    } else {
        assert(d * n <= d * i <= 0) by (nonlinear_arith)
            requires
                d < 0,
                0 <= i <= n,
        ;
        lemma_div_is_ordered(d * n, d * i, n);
        lemma_div_is_ordered(d * i, 0, n);
        lemma_div_multiples_vanish(d, n);
        assert(d * n == n * d) by (nonlinear_arith);
    }
}

/// Carving at one more point carves the terrain that the earlier points left.
proof fn lemma_carve_points_push(v: TerrainView, pts: Seq<(int, int)>, p: (int, int), r: int)
    ensures
        v.carve_points(pts.push(p), r) == v.carve_points(pts, r).carve_at(p, r),
{
    assert(pts.push(p).drop_last() =~= pts);
}

/// A path with one more waypoint places the points of its last segment after
/// those of the shorter path.
proof fn lemma_path_points_extend(path: Seq<(i32, i32)>, w: int, s: int)
    requires
        0 <= w,
        w + 2 <= path.len(),
    ensures
        path_points(path.subrange(0, w + 2), s) == path_points(path.subrange(0, w + 1), s)
            + segment_points(path[w], path[w + 1], s),
{
    assert(path.subrange(0, w + 2).drop_last() =~= path.subrange(0, w + 1));
}

impl TerrainView {
    /// Carving at point `p` levels cell `(x, z)`.
    pub open spec fn hit(self, p: (int, int), r: int, x: int, z: int) -> bool {
        self.contains(p.0, p.1) && self.in_window(self.index_of(p.0), self.index_of(p.1), r, x, z)
    }

    /// Carving at the points levels cell `(x, z)`: it is in the corridor.
    pub open spec fn in_corridor(self, pts: Seq<(int, int)>, r: int, x: int, z: int) -> bool
        decreases pts.len(),
    {
        if pts.len() == 0 {
            false
        } else {
            self.in_corridor(pts.drop_last(), r, x, z) || self.hit(pts.last(), r, x, z)
        }
    }
}

/// The corridor depends on the shape of the terrain only, not on its cells.
proof fn lemma_corridor_shape(v: TerrainView, w: TerrainView, pts: Seq<(int, int)>, r: int, x: int, z: int)
    requires
        v.size == w.size,
        v.scale == w.scale,
    ensures
        v.in_corridor(pts, r, x, z) == w.in_corridor(pts, r, x, z),
    decreases pts.len(),
{
    if pts.len() > 0 {
        lemma_corridor_shape(v, w, pts.drop_last(), r, x, z);
    }
}

/// A row of cells all of height `h` sums to `h` times its length.
proof fn lemma_row_sum_level(v: TerrainView, z: int, x0: int, x1: int, h: int)
    requires
        x0 <= x1,
        forall|x: int| x0 <= x < x1 ==> (#[trigger] v.cell(x, z)).height == h,
    ensures
        v.row_sum(z, x0, x1) == (x1 - x0) * h,
    decreases x1 - x0,
{
    if x1 > x0 {
        lemma_row_sum_level(v, z, x0, x1 - 1, h);
        assert((x1 - 1 - x0) * h + h == (x1 - x0) * h) by (nonlinear_arith);
    } else {
        assert((x1 - x0) * h == 0) by (nonlinear_arith)
            requires
                x1 == x0,
        ;
    }
}

/// A block of cells all of height `h` sums to `h` times its number of cells.
proof fn lemma_block_sum_level(v: TerrainView, x0: int, x1: int, z0: int, z1: int, h: int)
    requires
        x0 <= x1,
        z0 <= z1,
        forall|x: int, z: int| x0 <= x < x1 && z0 <= z < z1 ==> (#[trigger] v.cell(x, z)).height == h,
    ensures
        v.block_sum(x0, x1, z0, z1) == (x1 - x0) * (z1 - z0) * h,
    decreases z1 - z0,
{
    if z1 > z0 {
        lemma_block_sum_level(v, x0, x1, z0, z1 - 1, h);
        assert forall|x: int| x0 <= x < x1 implies (#[trigger] v.cell(x, z1 - 1)).height == h by {}
        lemma_row_sum_level(v, z1 - 1, x0, x1, h);
        assert((x1 - x0) * (z1 - 1 - z0) * h + (x1 - x0) * h == (x1 - x0) * (z1 - z0) * h) by (nonlinear_arith);
    } else {
        assert((x1 - x0) * (z1 - z0) * h == 0) by (nonlinear_arith)
            requires
                z1 == z0,
        ;
    }
}

/// Carving where the whole corridor has one height `h` keeps every height and
/// turns the corridor into road at height `h`.
pub proof fn lemma_carve_level_corridor(v: TerrainView, pts: Seq<(int, int)>, r: int, h: i32)
    requires
        v.wf(),
        r >= 0,
        forall|x: int, z: int| #[trigger] v.in_grid(x, z) && v.in_corridor(pts, r, x, z) ==> v.cell(x, z).height == h,
    ensures
        v.carve_points(pts, r).wf(),
        v.carve_points(pts, r).size == v.size,
        v.carve_points(pts, r).scale == v.scale,
        forall|x: int, z: int| #[trigger]
            v.in_grid(x, z) ==> v.carve_points(pts, r).cell(x, z) == (if v.in_corridor(pts, r, x, z) {
            Quad { height: h, texture: road_section() }
        } else {
            v.cell(x, z)
        }),
    decreases pts.len(),
{
    if pts.len() > 0 {
        let pre = pts.drop_last();
        let p = pts.last();
        lemma_carve_level_corridor(v, pre, r, h);
        let w = v.carve_points(pre, r);
        if w.contains(p.0, p.1) {
            let cx = w.index_of(p.0);
            let cz = w.index_of(p.1);
            lemma_index_of_bounds(w, p.0);
            lemma_index_of_bounds(w, p.1);
            lemma_window_shape(w, cx, cz, r);
            let x0 = lo_bound(cx, r);
            let x1 = hi_bound(cx, r, w.size as int);
            let z0 = lo_bound(cz, r);
            let z1 = hi_bound(cz, r, w.size as int);
            assert forall|x: int, z: int| x0 <= x < x1 && z0 <= z < z1 implies (#[trigger] w.cell(
                x,
                z,
            )).height == h by {
                assert(v.in_grid(x, z));
                assert(v.hit(p, r, x, z));
            }
            lemma_block_sum_level(w, x0, x1, z0, z1, h as int);
            lemma_div_multiples_vanish(h as int, (x1 - x0) * (z1 - z0));
            assert((x1 - x0) * (z1 - z0) * h == ((x1 - x0) * (z1 - z0)) * h) by (nonlinear_arith);
            assert(w.window_mean(cx, cz, r) == h);
            assert forall|x: int, z: int| #[trigger] v.in_grid(x, z) implies v.carve_points(
                pts,
                r,
            ).cell(x, z) == (if v.in_corridor(pts, r, x, z) {
                Quad { height: h, texture: road_section() }
            } else {
                v.cell(x, z)
            }) by {
                lemma_flatten_cell(w, cx, cz, r, x, z);
            }
            lemma_flatten_cell(w, cx, cz, r, cx, cz);
        }
    }
}

/// Carving a road twice along a path is carving it once, where the cells of
/// the path's corridor all have one height to begin with. (Where they do not,
/// overlapping windows with different means can change on a second pass.)
pub proof fn lemma_carve_idempotent(v: TerrainView, path: Seq<(i32, i32)>, r: int, h: i32)
    requires
        v.wf(),
        r >= 0,
        forall|x: int, z: int| #[trigger]
            v.in_grid(x, z) && v.in_corridor(path_points(path, v.scale as int), r, x, z) ==> v.cell(
                x,
                z,
            ).height == h,
    ensures
        v.carve(path, r).carve(path, r) == v.carve(path, r),
{
    let pts = path_points(path, v.scale as int);
    lemma_carve_level_corridor(v, pts, r, h);
    let w = v.carve(path, r);
    assert forall|x: int, z: int| #[trigger] w.in_grid(x, z) && w.in_corridor(pts, r, x, z) implies w.cell(
        x,
        z,
    ).height == h by {
        lemma_corridor_shape(v, w, pts, r, x, z);
        assert(v.in_grid(x, z));
    }
    lemma_carve_level_corridor(w, pts, r, h);
    let w2 = w.carve_points(pts, r);
    assert forall|x: int, z: int| w2.in_grid(x, z) implies #[trigger] w2.cell(x, z) == w.cell(x, z) by {
        assert(w.in_grid(x, z));
        assert(v.in_grid(x, z));
        lemma_corridor_shape(v, w, pts, r, x, z);
    }
    lemma_view_ext(w2, w);
}

impl Terrain {
    /// Sum of the heights of the block of rows `[z0, z1)` and columns `[x0, x1)`.
    fn block_height_sum(&self, x0: usize, x1: usize, z0: usize, z1: usize) -> (r: i64)
        requires
            self@.wf(),
            x0 <= x1 <= self@.size,
            z0 <= z1 <= self@.size,
        ensures
            r == self@.block_sum(x0 as int, x1 as int, z0 as int, z1 as int),
    {
        let ghost v = self@;
        let mut sum: i64 = 0;
        let mut z: usize = z0;
        while z < z1
            invariant
                v == self@,
                v.wf(),
                x0 <= x1 <= v.size,
                z0 <= z <= z1 <= v.size,
                sum == v.block_sum(x0 as int, x1 as int, z0 as int, z as int),
            decreases z1 - z,
        {
            let mut x: usize = x0;
            let mut row: i64 = 0;
            while x < x1
                invariant
                    v == self@,
                    v.wf(),
                    x0 <= x <= x1 <= v.size,
                    z0 <= z < z1 <= v.size,
                    row == v.row_sum(z as int, x0 as int, x as int),
                decreases x1 - x,
            {
                proof {
                    lemma_row_sum_bounds(v, z as int, x0 as int, (x + 1) as int);
                    assert((x + 1 - x0) * i32::MAX <= (v.size as int) * i32::MAX) by (nonlinear_arith)
                        requires
                            x + 1 - x0 <= v.size,
                    ;
                }
                row = row + self.get(x, z).height as i64;
                x = x + 1;
            }
            proof {
                lemma_block_sum_bounds(v, x0 as int, x1 as int, z0 as int, (z + 1) as int);
                let w = x1 - x0;
                let h = z + 1 - z0;
                assert(w * h <= (v.size as int) * (v.size as int)) by (nonlinear_arith)
                    requires
                        0 <= w <= v.size,
                        0 <= h <= v.size,
                ;
                assert((v.size as int) * (v.size as int) <= 32768 * 32768) by (nonlinear_arith)
                    requires
                        v.size <= 32768,
                ;
                assert(w * h * i32::MAX <= 32768 * 32768 * i32::MAX) by (nonlinear_arith)
                    requires
                        0 <= w * h <= 32768 * 32768,
                ;
                assert(w * h * i32::MIN >= 32768 * 32768 * i32::MIN) by (nonlinear_arith)
                    requires
                        0 <= w * h <= 32768 * 32768,
                ;
            }
            sum = sum + row;
            z = z + 1;
        }
        sum
    }

    /// Levels the window of radius `r` around cell `(cx, cz)` to its mean
    /// height (rounded down) and turns it into road.
    pub fn flatten_around(&mut self, cx: usize, cz: usize, r: usize)
        requires
            old(self)@.wf(),
            old(self)@.in_grid(cx as int, cz as int),
        ensures
            final(self)@ == old(self)@.flatten(cx as int, cz as int, r as int),
            final(self)@.wf(),
    {
        let ghost v = self@;
        let n = self.size();
        let x0: usize = if cx < r { 0 } else { cx - r };
        let z0: usize = if cz < r { 0 } else { cz - r };
        let x1: usize = if r >= n - cx { n } else { cx + r + 1 };
        let z1: usize = if r >= n - cz { n } else { cz + r + 1 };
        proof {
            lemma_window_shape(v, cx as int, cz as int, r as int);
        }
        let sum = self.block_height_sum(x0, x1, z0, z1);
        let count: i64 = ((x1 - x0) * (z1 - z0)) as i64;
        let mean = floor_div(sum as i128, count as i128) as i32;
        let q = Quad { height: mean, texture: TextureSections::Rock };
        let mut z: usize = z0;
        while z < z1
            invariant
                v.wf(),
                self@.wf(),
                self@.size == v.size,
                self@.scale == v.scale,
                n == v.size,
                x0 == lo_bound(cx as int, r as int),
                x1 == hi_bound(cx as int, r as int, n as int),
                z0 == lo_bound(cz as int, r as int),
                z1 == hi_bound(cz as int, r as int, n as int),
                0 <= x0 < x1 <= n,
                z0 <= z <= z1 <= n,
                q == (Quad {
                    height: v.window_mean(cx as int, cz as int, r as int) as i32,
                    texture: road_section(),
                }),
                forall|a: int, b: int| #[trigger]
                    v.in_grid(a, b) ==> self@.cell(a, b) == (if v.in_window(
                        cx as int,
                        cz as int,
                        r as int,
                        a,
                        b,
                    ) && b < z {
                        q
                    } else {
                        v.cell(a, b)
                    }),
            decreases z1 - z,
        {
            let mut x: usize = x0;
            while x < x1
                invariant
                    v.wf(),
                    self@.wf(),
                    self@.size == v.size,
                    self@.scale == v.scale,
                    n == v.size,
                    x0 == lo_bound(cx as int, r as int),
                    x1 == hi_bound(cx as int, r as int, n as int),
                    z0 == lo_bound(cz as int, r as int),
                    z1 == hi_bound(cz as int, r as int, n as int),
                    x0 <= x <= x1 <= n,
                    z0 <= z < z1 <= n,
                    q == (Quad {
                        height: v.window_mean(cx as int, cz as int, r as int) as i32,
                        texture: road_section(),
                    }),
                    forall|a: int, b: int| #[trigger]
                        v.in_grid(a, b) ==> self@.cell(a, b) == (if v.in_window(
                            cx as int,
                            cz as int,
                            r as int,
                            a,
                            b,
                        ) && (b < z || (b == z && a < x)) {
                            q
                        } else {
                            v.cell(a, b)
                        }),
                decreases x1 - x,
            {
                let ghost before = self@;
                self.set(x, z, q);
                proof {
                    lemma_cell_index(before, x as int, z as int);
                    assert(self@.cells == before.cells.update(z * v.size + x, q));
                    assert(self@.cells.len() == before.cells.len());
                    assert forall|a: int, b: int| #[trigger] v.in_grid(a, b) implies self@.cell(a, b)
                        == (if v.in_window(cx as int, cz as int, r as int, a, b) && (b < z || (b == z
                        && a < x + 1)) {
                        q
                    } else {
                        v.cell(a, b)
                    }) by {
                        lemma_cell_index(v, a, b);
                        if a == x && b == z {
                        } else {
                            if z * v.size + x == b * v.size + a {
                                lemma_cell_index_injective(v, x as int, z as int, a, b);
                            }
                            assert(self@.cells[b * v.size + a] == before.cells[b * v.size + a]);
                        }
                    }
                }
                x = x + 1;
            }
            z = z + 1;
        }
        proof {
            let f = v.flatten(cx as int, cz as int, r as int);
            assert forall|a: int, b: int| self@.in_grid(a, b) implies #[trigger] self@.cell(a, b) == f.cell(a, b) by {
                assert(v.in_grid(a, b));
                lemma_flatten_cell(v, cx as int, cz as int, r as int, a, b);
            }
            lemma_flatten_cell(v, cx as int, cz as int, r as int, cx as int, cz as int);
            lemma_view_ext(self@, f);
        }
    }

    /// Carves at one world point: levels the window of radius `r` around the
    /// cell that holds it, if it is on the terrain.
    pub fn carve_at(&mut self, x: i32, z: i32, r: usize)
        requires
            old(self)@.wf(),
        ensures
            final(self)@ == old(self)@.carve_at((x as int, z as int), r as int),
            final(self)@.wf(),
    {
        match self.world_to_index(x, z) {
            Some((ix, iz)) => self.flatten_around(ix, iz, r),
            None => {},
        }
    }

    /// Carves the road along a list of waypoints, with the radius that the
    /// game uses.
    pub fn register_road(&mut self, points: &[(i32, i32)])
        requires
            old(self)@.wf(),
        ensures
            final(self)@ == old(self)@.carve(points@, ROAD_RADIUS as int),
            final(self)@.wf(),
    {
        carve_road(self, points, ROAD_RADIUS);
    }
}

/// The squared distance between two points.
fn dist2_exec(a: (i32, i32), b: (i32, i32)) -> (d2: u128)
    ensures
        d2 == dist2(a, b),
        d2 <= 0x2_0000_0000_0000_0000,
{
    let dx: i64 = a.0 as i64 - b.0 as i64;
    let dz: i64 = a.1 as i64 - b.1 as i64;
    let ux: u128 = if dx < 0 { (-dx) as u128 } else { dx as u128 };
    let uz: u128 = if dz < 0 { (-dz) as u128 } else { dz as u128 };
    proof {
        assert(ux * ux == dx * dx && uz * uz == dz * dz) by (nonlinear_arith)
            requires
                ux == dx || ux == -dx,
                uz == dz || uz == -dz,
        ;
        assert(ux * ux <= 0x1_0000_0000 * 0x1_0000_0000 && uz * uz <= 0x1_0000_0000 * 0x1_0000_0000)
            by (nonlinear_arith)
            requires
                ux <= 0x1_0000_0000,
                uz <= 0x1_0000_0000,
        ;
    }
    ux * ux + uz * uz
}

/// The length of the segment between `a` and `b`, rounded down.
fn segment_length_exec(a: (i32, i32), b: (i32, i32)) -> (l: u64)
    ensures
        l == segment_length(a, b),
        (l as int) * (l as int) <= dist2(a, b) < (l + 1) * (l + 1),
        l < 0x2_0000_0000,
{
    let d2 = dist2_exec(a, b);
    let mut lo: u128 = 0;
    let mut hi: u128 = 0x2_0000_0000;
    proof {
        assert(hi * hi == 0x4_0000_0000_0000_0000) by (nonlinear_arith)
            requires
                hi == 0x2_0000_0000,
        ;
        assert(lo * lo == 0) by (nonlinear_arith)
            requires
                lo == 0,
        ;
    }
    while hi - lo > 1
        invariant
            d2 == dist2(a, b),
            0 <= lo < hi <= 0x2_0000_0000,
            lo * lo <= d2 < hi * hi,
        decreases hi - lo,
    {
        let mid = lo + (hi - lo) / 2;
        proof {
            assert(mid * mid <= 0x4_0000_0000_0000_0000) by (nonlinear_arith)
                requires
                    mid <= 0x2_0000_0000,
            ;
        }
        if mid * mid <= d2 {
            lo = mid;
        } else {
            hi = mid;
        }
    }
    proof {
        lemma_floor_sqrt(d2 as int, 0, lo as int);
    }
    lo as u64
}

/// Number of points to place on the segment between `a` and `b` with step `s`.
fn segment_steps_exec(a: (i32, i32), b: (i32, i32), s: u32) -> (k: u64)
    requires
        s > 0,
    ensures
        k == segment_steps(a, b, s as int),
        k <= 0x4_0000_0000,
{
    proof {
        assert((s as int) * (s as int) <= 0x1_0000_0000 * 0x1_0000_0000) by (nonlinear_arith)
            requires
                s <= 0x1_0000_0000,
        ;
    }
    let d2 = dist2_exec(a, b);
    let s2: u128 = s as u128 * s as u128;
    let mut k: u128 = 0;
    proof {
        assert(s2 >= 1) by (nonlinear_arith)
            requires
                s2 == (s as int) * (s as int),
                s >= 1,
        ;
        assert(k * k * s2 == 0) by (nonlinear_arith)
            requires
                k == 0,
        ;
    }
    let mut done: bool = d2 == 0;
    while !done
        invariant
            d2 == dist2(a, b),
            d2 <= 0x2_0000_0000_0000_0000,
            s2 == (s as int) * (s as int),
            1 <= s2 <= 0x1_0000_0000_0000_0000,
            k <= d2,
            k == 0 || (k - 1) * (k - 1) * s2 < d2,
            least_cover(d2 as int, s2 as int, k as int) == least_cover(d2 as int, s2 as int, 0),
            k * k * s2 <= 4 * d2 + s2,
            done == (k >= d2 || k * k * s2 >= d2),
        decreases d2 - k,
    {
        proof {
            assert((k + 1) * (k + 1) * s2 <= 4 * d2 + s2) by (nonlinear_arith)
                requires
                    k * k * s2 < d2,
                    s2 >= 1,
                    k >= 0,
            ;
        }
        k = k + 1;
        proof {
            assert(k * k <= k * k * s2) by (nonlinear_arith)
                requires
                    s2 >= 1,
            ;
        }
        done = k >= d2 || k * k * s2 >= d2;
    }
    proof {
        if k > 0x4_0000_0000 {
            assert((k - 1) * (k - 1) * s2 >= 0x3_FFFF_FFFF * 0x3_FFFF_FFFF) by (nonlinear_arith)
                requires
                    k - 1 >= 0x3_FFFF_FFFF,
                    s2 >= 1,
            ;
        }
    }
    k as u64
}

/// The coordinate `b + (a - b) * i / n`, rounded down.
fn interpolate(b: i32, a: i32, i: u64, n: u64) -> (r: i32)
    requires
        i <= n <= 0x2_0000_0000,
        n > 0,
    ensures
        r == b + (a - b) * (i as int) / (n as int),
{
    let d: i128 = a as i128 - b as i128;
    proof {
        assert(-0x1_0000_0000 * 0x2_0000_0000 <= d * i <= 0x1_0000_0000 * 0x2_0000_0000) by (nonlinear_arith)
            requires
                -0x1_0000_0000 <= d <= 0x1_0000_0000,
                0 <= i <= 0x2_0000_0000,
        ;
        lemma_fraction_between(d as int, i as int, n as int);
    }
    let num: i128 = d * (i as i128);
    let f = floor_div(num, n as i128);
    (b as i128 + f) as i32
}

/// Carves a road of radius `radius` along a path: for each pair of consecutive
/// waypoints, points are placed from the second back toward the first, one
/// cell width apart, and the terrain is carved at each of them in turn.
pub fn carve_road(grid: &mut Terrain, path: &[(i32, i32)], radius: usize)
    requires
        old(grid)@.wf(),
    ensures
        final(grid)@ == old(grid)@.carve(path@, radius as int),
        final(grid)@.wf(),
{
    let ghost v = grid@;
    let s = grid.scale();
    let ghost sc = s as int;
    if path.len() < 2 {
        return;
    }
    let mut w: usize = 0;
    while w < path.len() - 1
        invariant
            v == old(grid)@,
            v.wf(),
            grid@.wf(),
            s == v.scale,
            sc == s as int,
            path@.len() >= 2,
            0 <= w < path@.len(),
            grid@ == v.carve_points(path_points(path@.subrange(0, w + 1), sc), radius as int),
        decreases path@.len() - w,
    {
        let a = path[w];
        let b = path[w + 1];
        let n = segment_steps_exec(a, b, s);
        let len = segment_length_exec(a, b);
        let ghost before = path_points(path@.subrange(0, w + 1), sc);
        let ghost seg = segment_points(a, b, sc);
        let mut i: u64 = 0;
        while i < n
            invariant
                v.wf(),
                grid@.wf(),
                sc == s as int,
                n == segment_steps(a, b, sc),
                n <= 0x4_0000_0000,
                len == segment_length(a, b),
                len < 0x2_0000_0000,
                (len as int) * (len as int) <= dist2(a, b) < (len + 1) * (len + 1),
                s > 0,
                seg == segment_points(a, b, sc),
                0 <= i <= n,
                grid@ == v.carve_points(before + seg.take(i as int), radius as int),
            decreases n - i,
        {
            proof {
                lemma_step_within_length(a, b, sc, i as int);
                if len == 0 {
                    assert((len + 1) * (len + 1) == 1) by (nonlinear_arith)
                        requires
                            len == 0,
                    ;
                    let dx = a.0 - b.0;
                    let dz = a.1 - b.1;
                    assert(dx * dx + dz * dz >= 0) by (nonlinear_arith);
                    assert(least_cover(0, sc * sc, 0) == 0);
                }
            }
            let step: u64 = (i as u128 * s as u128) as u64;
            let px = interpolate(b.0, a.0, step, len);
            let pz = interpolate(b.1, a.1, step, len);
            proof {
                assert((before + seg.take(i as int)).push(seg[i as int]) =~= before + seg.take(i + 1));
                lemma_carve_points_push(v, before + seg.take(i as int), seg[i as int], radius as int);
            }
            grid.carve_at(px, pz, radius);
            i = i + 1;
        }
        proof {
            assert(seg.take(n as int) =~= seg);
            lemma_path_points_extend(path@, w as int, sc);
        }
        w = w + 1;
    }
    proof {
        assert(path@.subrange(0, path@.len() as int) =~= path@);
    }
}

} // verus!
