use vstd::prelude::*;

use crate::arith::floor_div;
use crate::section::{section_of, to_texture, TextureSections};

verus! {

/// Largest grid side: the mesh has four vertices and six indices per cell,
/// and every vertex must be addressable by a 32-bit index.
pub const MAX_GRID_SIZE: usize = 16384;

/// Radius of the window that `get_heights_around` returns.
pub const AROUND_RADIUS: usize = 32;

/// One terrain cell: its height and its surface classification.
#[derive(Clone, Copy, Debug, PartialEq, Eq, Structural)]
pub struct Quad {
    pub height: i32,
    pub texture: TextureSections,
}

/// Why a terrain could not be built.
#[derive(Clone, Copy, Debug, PartialEq, Eq, Structural)]
pub enum ConfigurationError {
    /// The grid has no cells.
    ZeroSize,
    /// A cell has no extent.
    ZeroScale,
    /// The grid is too large for 32-bit vertex indices, or its extent does
    /// not fit the coordinate range.
    TooLarge,
    /// The number of height samples is not the number of cells.
    SampleCount,
}

/// The mathematical model of a terrain: a square grid of `size * size` cells,
/// stored row by row (row `z`, column `x`), each `scale` units wide. The grid
/// is centred on the world origin: it spans `[-half, extent - half)` on both
/// axes, where `extent = size * scale` and `half = extent / 2`.
pub struct TerrainView {
    pub size: nat,
    pub scale: nat,
    pub cells: Seq<Quad>,
}

impl TerrainView {
    pub open spec fn wf(self) -> bool {
        &&& 0 < self.size <= MAX_GRID_SIZE
        &&& 0 < self.scale
        &&& self.size * self.scale <= i32::MAX
        &&& self.cells.len() == self.size * self.size
    }

    pub open spec fn in_grid(self, x: int, z: int) -> bool {
        0 <= x < self.size && 0 <= z < self.size
    }

    pub open spec fn cell(self, x: int, z: int) -> Quad {
        self.cells[z * self.size + x]
    }

    pub open spec fn extent(self) -> int {
        (self.size * self.scale) as int
    }

    pub open spec fn half(self) -> int {
        self.extent() / 2
    }

    pub open spec fn min_corner(self) -> int {
        -self.half()
    }

    pub open spec fn max_corner(self) -> int {
        self.extent() - self.half()
    }

    /// The world point lies on the terrain.
    pub open spec fn contains(self, wx: int, wz: int) -> bool {
        &&& self.min_corner() <= wx < self.max_corner()
        &&& self.min_corner() <= wz < self.max_corner()
    }

    /// Row or column index of the cell that holds a world coordinate.
    pub open spec fn index_of(self, w: int) -> int {
        (w + self.half()) / (self.scale as int)
    }

    /// World coordinate of the lower edge of a row or column.
    pub open spec fn world_of(self, i: int) -> int {
        i * self.scale - self.half()
    }

    /// Entry `(i, j)` of the window of radius `r` around cell `(cx, cz)`:
    /// the cell `i - r` rows and `j - r` columns away, if it is on the grid.
    pub open spec fn window_entry(self, cx: int, cz: int, r: int, i: int, j: int) -> Option<Quad> {
        if self.in_grid(cx + j - r, cz + i - r) {
            Some(self.cell(cx + j - r, cz + i - r))
        } else {
            None
        }
    }

    /// Entry `(i, j)` of the neighbourhood of radius `r` around a world point:
    /// the window around the (possibly off-grid) cell position of the point.
    pub open spec fn neighbor(self, wx: int, wz: int, r: int, i: int, j: int) -> Option<Quad> {
        self.window_entry(self.index_of(wx), self.index_of(wz), r, i, j)
    }
}

/// The terrain that a grid of `size * size` height samples (row by row) gives.
pub open spec fn generated(size: nat, scale: nat, heights: Seq<i32>) -> TerrainView {
    TerrainView {
        size,
        scale,
        cells: Seq::new(
            size * size,
            |i: int| Quad { height: heights[i], texture: section_of(heights[i] as int) },
        ),
    }
}

/// The height field with its classification, mapped onto world coordinates.
pub struct Terrain {
    quads: Vec<Quad>,
    size: usize,
    scale: u32,
}

impl View for Terrain {
    type V = TerrainView;

    closed spec fn view(&self) -> TerrainView {
        TerrainView { size: self.size as nat, scale: self.scale as nat, cells: self.quads@ }
    }
}

impl Terrain {
    /// Builds a `size * size` terrain of cells `scale` units wide from its
    /// height samples, given row by row (`heights[z * size + x]`); each cell is
    /// classified by its height.
    pub fn new(size: usize, scale: u32, heights: &Vec<i32>) -> (r: Result<Terrain, ConfigurationError>)
        ensures
            size == 0 ==> r == Err::<Terrain, ConfigurationError>(ConfigurationError::ZeroSize),
            size > 0 && scale == 0 ==> r == Err::<Terrain, ConfigurationError>(
                ConfigurationError::ZeroScale,
            ),
            size > 0 && scale > 0 && (size > MAX_GRID_SIZE || size * scale > i32::MAX) ==> r
                == Err::<Terrain, ConfigurationError>(ConfigurationError::TooLarge),
            0 < size <= MAX_GRID_SIZE && 0 < scale && size * scale <= i32::MAX && heights@.len()
                != size * size ==> r == Err::<Terrain, ConfigurationError>(
                ConfigurationError::SampleCount,
            ),
            r is Ok <==> (0 < size <= MAX_GRID_SIZE && 0 < scale && size * scale <= i32::MAX
                && heights@.len() == size * size),
            r matches Ok(t) ==> t@ == generated(size as nat, scale as nat, heights@) && t@.wf(),
    {
        if size == 0 {
            return Err(ConfigurationError::ZeroSize);
        }
        if scale == 0 {
            return Err(ConfigurationError::ZeroScale);
        }
        if size > MAX_GRID_SIZE {
            return Err(ConfigurationError::TooLarge);
        }
        proof {
            assert(size * scale <= MAX_GRID_SIZE * u32::MAX) by (nonlinear_arith)
                requires
                    size <= MAX_GRID_SIZE,
                    scale <= u32::MAX,
            ;
            assert(size * size <= MAX_GRID_SIZE * MAX_GRID_SIZE) by (nonlinear_arith)
                requires
                    size <= MAX_GRID_SIZE,
            ;
        }
        if size as u64 * scale as u64 > i32::MAX as u64 {
            return Err(ConfigurationError::TooLarge);
        }
        if heights.len() != size * size {
            return Err(ConfigurationError::SampleCount);
        }
        let n = size * size;
        let mut quads: Vec<Quad> = Vec::with_capacity(n);
        let mut i: usize = 0;
        while i < n
            invariant
                n == size * size,
                heights@.len() == n,
                0 <= i <= n,
                quads@.len() == i,
                forall|k: int| 0 <= k < i ==> #[trigger] quads@[k] == (Quad {
                    height: heights@[k],
                    texture: section_of(heights@[k] as int),
                }),
            decreases n - i,
        {
            let h = heights[i];
            quads.push(Quad { height: h, texture: to_texture(h) });
            i = i + 1;
        }
        let t = Terrain { quads, size, scale };
        assert(t@.cells =~= generated(size as nat, scale as nat, heights@).cells);
        Ok(t)
    }

    /// Number of cells along each side.
    pub fn size(&self) -> (r: usize)
        ensures
            r == self@.size,
    {
        self.size
    }

    /// Width of one cell, in units.
    pub fn scale(&self) -> (r: u32)
        ensures
            r == self@.scale,
    {
        self.scale
    }

    /// Half the extent of the grid: the distance from the lower corner to the
    /// world origin.
    pub fn half_extent(&self) -> (r: i32)
        requires
            self@.wf(),
        ensures
            r == self@.half(),
    {
        ((self.size as u64 * self.scale as u64) / 2) as i32
    }

    /// The cell at column `x`, row `z`.
    pub fn get(&self, x: usize, z: usize) -> (r: Quad)
        requires
            self@.wf(),
            self@.in_grid(x as int, z as int),
        ensures
            r == self@.cell(x as int, z as int),
    {
        proof {
            lemma_cell_index(self@, x as int, z as int);
        }
        self.quads[z * self.size + x]
    }

    /// The cell at column `x`, row `z`, if there is one.
    pub fn get_cell(&self, x: usize, z: usize) -> (r: Option<Quad>)
        requires
            self@.wf(),
        ensures
            r == (if self@.in_grid(x as int, z as int) {
                Some(self@.cell(x as int, z as int))
            } else {
                None
            }),
    {
        if x < self.size && z < self.size {
            Some(self.get(x, z))
        } else {
            None
        }
    }

    /// Replaces the cell at column `x`, row `z`.
    pub(crate) fn set(&mut self, x: usize, z: usize, q: Quad)
        requires
            old(self)@.wf(),
            old(self)@.in_grid(x as int, z as int),
        ensures
            final(self)@ == (TerrainView {
                cells: old(self)@.cells.update(z * old(self)@.size + x, q),
                ..old(self)@
            }),
    {
        proof {
            lemma_cell_index(self@, x as int, z as int);
        }
        let k = z * self.size + x;
        self.quads.set(k, q);
    }

    /// The world coordinate of the lower edge of row or column `i`.
    pub fn index_to_world(&self, i: usize) -> (r: i32)
        requires
            self@.wf(),
            i <= self@.size,
        ensures
            r == self@.world_of(i as int),
    {
        proof {
            assert(i * self.scale <= self.size * self.scale) by (nonlinear_arith)
                requires
                    i <= self.size,
            ;
        }
        let h = self.half_extent();
        (i as u64 * self.scale as u64) as i32 - h
    }

    /// The row or column index of the cell that holds a world coordinate.
    pub fn axis_index(&self, w: i32) -> (r: Option<usize>)
        requires
            self@.wf(),
        ensures
            r is Some <==> self@.min_corner() <= w < self@.max_corner(),
            r matches Some(i) ==> i == self@.index_of(w as int) && i < self@.size,
    {
        let t: i64 = w as i64 + self.half_extent() as i64;
        if t < 0 {
            proof {
                lemma_index_of_bounds(self@, w as int);
            }
            return None;
        }
        let i = (t as u64 / self.scale as u64) as usize;
        proof {
            lemma_index_of_bounds(self@, w as int);
        }
        if i < self.size {
            Some(i)
        } else {
            None
        }
    }

    /// The indices of the cell that holds a world point.
    pub fn world_to_index(&self, x: i32, z: i32) -> (r: Option<(usize, usize)>)
        requires
            self@.wf(),
        ensures
            r is Some <==> self@.contains(x as int, z as int),
            r matches Some(p) ==> p.0 == self@.index_of(x as int) && p.1 == self@.index_of(
                z as int,
            ) && self@.in_grid(p.0 as int, p.1 as int),
    {
        match self.axis_index(x) {
            Some(ix) => match self.axis_index(z) {
                Some(iz) => Some((ix, iz)),
                None => None,
            },
            None => None,
        }
    }

    /// The height of the terrain at a world point, if the point is on it.
    pub fn get_height(&self, x: i32, z: i32) -> (r: Option<i32>)
        requires
            self@.wf(),
        ensures
            r is Some <==> self@.contains(x as int, z as int),
            r matches Some(h) ==> h == self@.cell(
                self@.index_of(x as int),
                self@.index_of(z as int),
            ).height,
    {
        match self.world_to_index(x, z) {
            Some((ix, iz)) => Some(self.get(ix, iz).height),
            None => None,
        }
    }

    /// The row or column position of the cell that holds a world coordinate,
    /// whether or not that cell is on the grid.
    pub fn axis_position(&self, w: i32) -> (r: i64)
        requires
            self@.wf(),
        ensures
            r == self@.index_of(w as int),
            -0x1_0000_0000 <= r <= 0x1_0000_0000,
    {
        let t: i128 = w as i128 + self.half_extent() as i128;
        proof {
            let s = self@.scale as int;
            let ti = t as int;
            vstd::arithmetic::div_mod::lemma_fundamental_div_mod(ti, s);
            let q = ti / s;
            let m = ti % s;
            assert(-0x1_0000_0000 <= q <= 0x1_0000_0000) by (nonlinear_arith)
                requires
                    ti == s * q + m,
                    0 <= m < s,
                    s >= 1,
                    -0x1_0000_0000 <= ti <= 0x1_0000_0000,
            ;
        }
        floor_div(t, self.scale as i128) as i64
    }

    /// The cell `dx - r` columns and `dz - r` rows away from the cell position
    /// `(cx, cz)`, if it is on the grid. No arithmetic on unsigned indices can
    /// wrap here.
    pub fn offset_cell(&self, cx: i64, cz: i64, r: usize, dx: usize, dz: usize) -> (q: Option<Quad>)
        requires
            self@.wf(),
        ensures
            q == self@.window_entry(cx as int, cz as int, r as int, dz as int, dx as int),
    {
        let x: i128 = cx as i128 + dx as i128 - r as i128;
        let z: i128 = cz as i128 + dz as i128 - r as i128;
        if 0 <= x && x < self.size as i128 && 0 <= z && z < self.size as i128 {
            Some(self.get(x as usize, z as usize))
        } else {
            None
        }
    }

    /// The `(2 * radius + 1)` square window of cells centred on the cell
    /// position of a world point, row by row; exactly the entries off the grid
    /// are `None`, also where the point itself is off the terrain.
    pub fn get_neighborhood(&self, x: i32, z: i32, radius: usize) -> (r: Vec<Vec<Option<Quad>>>)
        requires
            self@.wf(),
            radius < usize::MAX / 2,
        ensures
            r@.len() == 2 * radius + 1,
            forall|i: int| 0 <= i < r@.len() ==> #[trigger] r@[i]@.len() == 2 * radius + 1,
            forall|i: int, j: int|
                0 <= i < r@.len() && 0 <= j < 2 * radius + 1 ==> #[trigger] r@[i]@[j]
                    == self@.neighbor(x as int, z as int, radius as int, i, j),
    {
        let width = 2 * radius + 1;
        let cx = self.axis_position(x);
        let cz = self.axis_position(z);
        let mut rows: Vec<Vec<Option<Quad>>> = Vec::with_capacity(width);
        let mut i: usize = 0;
        while i < width
            invariant
                self@.wf(),
                width == 2 * radius + 1,
                cx == self@.index_of(x as int),
                cz == self@.index_of(z as int),
                0 <= i <= width,
                rows@.len() == i,
                forall|k: int| 0 <= k < i ==> #[trigger] rows@[k]@.len() == width,
                forall|k: int, j: int|
                    0 <= k < i && 0 <= j < width ==> #[trigger] rows@[k]@[j] == self@.neighbor(
                        x as int,
                        z as int,
                        radius as int,
                        k,
                        j,
                    ),
            decreases width - i,
        {
            let mut row: Vec<Option<Quad>> = Vec::with_capacity(width);
            let mut j: usize = 0;
            while j < width
                invariant
                    self@.wf(),
                    width == 2 * radius + 1,
                    cx == self@.index_of(x as int),
                    cz == self@.index_of(z as int),
                    0 <= i < width,
                    0 <= j <= width,
                    row@.len() == j,
                    forall|l: int| 0 <= l < j ==> #[trigger] row@[l] == self@.neighbor(
                        x as int,
                        z as int,
                        radius as int,
                        i as int,
                        l,
                    ),
                decreases width - j,
            {
                let e = self.offset_cell(cx, cz, radius, j, i);
                row.push(e);
                j = j + 1;
            }
            rows.push(row);
            i = i + 1;
        }
        rows
    }

    /// The window of radius `AROUND_RADIUS` around a world point, flattened
    /// row by row.
    pub fn get_heights_around(&self, x: i32, z: i32) -> (r: Vec<Option<Quad>>)
        requires
            self@.wf(),
        ensures
            r@.len() == (2 * AROUND_RADIUS + 1) * (2 * AROUND_RADIUS + 1),
            forall|i: int, j: int|
                0 <= i < 2 * AROUND_RADIUS + 1 && 0 <= j < 2 * AROUND_RADIUS + 1 ==> #[trigger] r@[i
                    * (2 * AROUND_RADIUS + 1) + j] == self@.neighbor(
                    x as int,
                    z as int,
                    AROUND_RADIUS as int,
                    i,
                    j,
                ),
    {
        let rows = self.get_neighborhood(x, z, AROUND_RADIUS);
        let width: usize = 2 * AROUND_RADIUS + 1;
        let mut out: Vec<Option<Quad>> = Vec::with_capacity(width * width);
        let mut i: usize = 0;
        while i < width
            invariant
                width == 2 * AROUND_RADIUS + 1,
                rows@.len() == width,
                forall|k: int| 0 <= k < width ==> #[trigger] rows@[k]@.len() == width,
                forall|k: int, j: int|
                    0 <= k < width && 0 <= j < width ==> #[trigger] rows@[k]@[j] == self@.neighbor(
                        x as int,
                        z as int,
                        AROUND_RADIUS as int,
                        k,
                        j,
                    ),
                0 <= i <= width,
                out@.len() == i * width,
                forall|k: int, j: int|
                    0 <= k < i && 0 <= j < width ==> #[trigger] out@[k * width + j] == self@.neighbor(
                        x as int,
                        z as int,
                        AROUND_RADIUS as int,
                        k,
                        j,
                    ),
            decreases width - i,
        {
            let row = &rows[i];
            let mut j: usize = 0;
            while j < width
                invariant
                    width == 2 * AROUND_RADIUS + 1,
                    row@.len() == width,
                    forall|l: int| 0 <= l < width ==> #[trigger] row@[l] == self@.neighbor(
                        x as int,
                        z as int,
                        AROUND_RADIUS as int,
                        i as int,
                        l,
                    ),
                    0 <= i < width,
                    0 <= j <= width,
                    out@.len() == i * width + j,
                    forall|k: int, l: int|
                        0 <= k < i && 0 <= l < width ==> #[trigger] out@[k * width + l]
                            == self@.neighbor(x as int, z as int, AROUND_RADIUS as int, k, l),
                    forall|l: int| 0 <= l < j ==> #[trigger] out@[i * width + l] == self@.neighbor(
                        x as int,
                        z as int,
                        AROUND_RADIUS as int,
                        i as int,
                        l,
                    ),
                decreases width - j,
            {
                let ghost prev = out@;
                out.push(row[j]);
                proof {
                    assert forall|k: int, l: int| 0 <= k < i && 0 <= l < width implies #[trigger] out@[k
                        * width + l] == self@.neighbor(x as int, z as int, AROUND_RADIUS as int, k, l) by {
                        assert(k * width + l < (k + 1) * width <= i * width) by (nonlinear_arith)
                            requires
                                0 <= k < i,
                                0 <= l < width,
                        ;
                        assert(out@[k * width + l] == prev[k * width + l]);
                    }
                }
                j = j + 1;
            }
            proof {
                assert((i + 1) * width == i * width + width) by (nonlinear_arith);
                assert forall|k: int, l: int| 0 <= k < i + 1 && 0 <= l < width implies #[trigger] out@[k
                    * width + l] == self@.neighbor(x as int, z as int, AROUND_RADIUS as int, k, l) by {
                    if k == i {
                        assert(out@[i * width + l] == self@.neighbor(
                            x as int,
                            z as int,
                            AROUND_RADIUS as int,
                            i as int,
                            l,
                        ));
                    }
                }
            }
            i = i + 1;
        }
        out
    }

    /// The lower and the upper corner of the terrain in world coordinates.
    pub fn get_dimensions(&self) -> (r: ((i32, i32), (i32, i32)))
        requires
            self@.wf(),
        ensures
            r.0.0 == self@.min_corner() && r.0.1 == self@.min_corner(),
            r.1.0 == self@.max_corner() && r.1.1 == self@.max_corner(),
    {
        let h = self.half_extent();
        let e = (self.size as u64 * self.scale as u64) as i32;
        ((-h, -h), (e - h, e - h))
    }
}

/// Building a terrain is deterministic: two terrains built from the same
/// size, scale and height samples have identical heights and classifications,
/// and every classification is that of the cell's height.
pub proof fn lemma_build_deterministic(size: nat, scale: nat, heights: Seq<i32>, a: TerrainView, b: TerrainView)
    requires
        a == generated(size, scale, heights),
        b == generated(size, scale, heights),
    ensures
        a == b,
        forall|k: int|
            0 <= k < a.cells.len() ==> (#[trigger] a.cells[k]).height == heights[k]
                && a.cells[k].texture == section_of(heights[k] as int),
{
}

/// The cell `(x, z)` is stored at `z * size + x`, inside the cell sequence.
pub(crate) proof fn lemma_cell_index(v: TerrainView, x: int, z: int)
    requires
        v.wf(),
        v.in_grid(x, z),
    ensures
        0 <= z * v.size + x < v.size * v.size,
        z * v.size + x <= usize::MAX,
{
    assert(0 <= z * v.size + x < v.size * v.size) by (nonlinear_arith)
        requires
            0 <= x < v.size,
            0 <= z < v.size,
    ;
    assert(v.size * v.size <= MAX_GRID_SIZE * MAX_GRID_SIZE) by (nonlinear_arith)
        requires
            0 < v.size <= MAX_GRID_SIZE,
    ;
}

/// A world coordinate maps to a row or column of the grid exactly when it lies
/// between the corners.
pub(crate) proof fn lemma_index_of_bounds(v: TerrainView, w: int)
    requires
        v.wf(),
    ensures
        0 <= w + v.half() ==> v.index_of(w) >= 0,
        w + v.half() < 0 ==> !(v.min_corner() <= w),
        0 <= w + v.half() ==> (v.index_of(w) < v.size <==> w < v.max_corner()),
{
    let s = v.scale as int;
    let t = w + v.half();
    if 0 <= t {
        vstd::arithmetic::div_mod::lemma_fundamental_div_mod(t, s);
        let q = t / s;
        let m = t % s;
        assert(0 <= m < s);
        assert(q >= 0) by (nonlinear_arith)
            requires
                t == s * q + m,
                0 <= m < s,
                0 <= t,
        ;
        assert(q < v.size <==> t < v.size * s) by (nonlinear_arith)
            requires
                t == s * q + m,
                0 <= m < s,
                q >= 0,
        ;
    }
}

} // verus!
