use vstd::arithmetic::div_mod::lemma_fundamental_div_mod_converse;
use vstd::prelude::*;

use crate::arith::floor_div;
use crate::road::lemma_mean_bounds;
use crate::section::{TextureAtlas, UvCoords};
use crate::terrain::{lemma_cell_index, Terrain, TerrainView, MAX_GRID_SIZE};

verus! {

/// A point or a vector with integer coordinates.
pub type Point3 = (i32, i32, i32);

/// A vector whose coordinates are products of coordinate differences.
pub type Vector3 = (i128, i128, i128);

/// Corner `k` of a cell lies `k % 2` columns and `k / 2` rows from its lower
/// corner.
pub open spec fn corner_dx(k: int) -> int {
    k % 2
}

pub open spec fn corner_dz(k: int) -> int {
    k / 2
}

/// The corner of its cell that entry `j` of a cell's six indices names: two
/// triangles, `(0, 2, 1)` and `(2, 3, 1)`.
pub open spec fn triangle_corner(j: int) -> int {
    if j == 0 {
        0
    } else if j == 1 {
        2
    } else if j == 2 {
        1
    } else if j == 3 {
        2
    } else if j == 4 {
        3
    } else {
        1
    }
}

/// Entry `j` of the index list: the vertex that the triangles name.
pub open spec fn mesh_index(j: int) -> int {
    4 * (j / 6) + triangle_corner(j % 6)
}

pub open spec fn sub3(a: (int, int, int), b: (int, int, int)) -> (int, int, int) {
    (a.0 - b.0, a.1 - b.1, a.2 - b.2)
}

pub open spec fn cross(v: (int, int, int), w: (int, int, int)) -> (int, int, int) {
    (v.1 * w.2 - v.2 * w.1, v.2 * w.0 - v.0 * w.2, v.0 * w.1 - v.1 * w.0)
}

/// The normal of the triangle `(a, b, c)`, not normalised: the cross product
/// of its edges from `a`.
pub open spec fn face_normal(a: (int, int, int), b: (int, int, int), c: (int, int, int)) -> (int, int, int) {
    cross(sub3(b, a), sub3(c, a))
}

pub open spec fn point_of(p: Point3) -> (int, int, int) {
    (p.0 as int, p.1 as int, p.2 as int)
}

pub open spec fn vector_of(p: Vector3) -> (int, int, int) {
    (p.0 as int, p.1 as int, p.2 as int)
}

impl TerrainView {
    /// The height of cell `(x, z)`, or `own` where that cell is off the grid.
    pub open spec fn height_or(self, x: int, z: int, own: int) -> int {
        if self.in_grid(x, z) {
            self.cell(x, z).height as int
        } else {
            own
        }
    }

    /// The height of corner `k` of cell `(x, z)`: the mean (rounded down) of
    /// the four cells that share the corner, each off-grid one counted with
    /// the height of cell `(x, z)`.
    pub open spec fn corner_height(self, x: int, z: int, k: int) -> int {
        let cx = x + corner_dx(k);
        let cz = z + corner_dz(k);
        let own = self.cell(x, z).height as int;
        (self.height_or(cx - 1, cz - 1, own) + self.height_or(cx, cz - 1, own) + self.height_or(
            cx - 1,
            cz,
            own,
        ) + self.height_or(cx, cz, own)) / 4
    }

    /// Corner `k` of the `q`-th cell, the cells taken row by row.
    pub open spec fn vertex(self, q: int, k: int) -> (int, int, int) {
        let x = q % (self.size as int);
        let z = q / (self.size as int);
        (
            self.world_of(x + corner_dx(k)),
            self.corner_height(x, z, k),
            self.world_of(z + corner_dz(k)),
        )
    }

    /// Vertex `i` of the mesh: each cell owns four consecutive vertices.
    pub open spec fn mesh_vertex(self, i: int) -> (int, int, int) {
        self.vertex(i / 4, i % 4)
    }

    /// The normal of the first triangle `(0, 2, 1)` of the `q`-th cell.
    pub open spec fn first_face(self, q: int) -> (int, int, int) {
        face_normal(self.vertex(q, 0), self.vertex(q, 2), self.vertex(q, 1))
    }

    /// The normal of the second triangle `(2, 3, 1)` of the `q`-th cell.
    pub open spec fn second_face(self, q: int) -> (int, int, int) {
        face_normal(self.vertex(q, 2), self.vertex(q, 3), self.vertex(q, 1))
    }

    /// The normals of the faces that vertex `i` borders, to be normalised and
    /// averaged: corner 0 borders the first triangle only, corner 3 the
    /// second only, corners 1 and 2 both.
    pub open spec fn mesh_normals(self, i: int) -> ((int, int, int), (int, int, int)) {
        let q = i / 4;
        let k = i % 4;
        if k == 0 {
            (self.first_face(q), self.first_face(q))
        } else if k == 3 {
            (self.second_face(q), self.second_face(q))
        } else {
            (self.first_face(q), self.second_face(q))
        }
    }
}

/// Texture coordinates of corner `k` of a cell whose tile is `r`.
pub open spec fn corner_uv(r: UvCoords, k: int) -> (u32, u32) {
    if k == 0 {
        (r.left, r.bottom)
    } else if k == 1 {
        (r.right, r.bottom)
    } else if k == 2 {
        (r.left, r.top)
    } else {
        (r.right, r.top)
    }
}

/// Texture coordinates of vertex `i` of the mesh.
pub open spec fn mesh_uv(v: TerrainView, atlas: &TextureAtlas, i: int) -> (u32, u32) {
    let q = i / 4;
    let x = q % (v.size as int);
    let z = q / (v.size as int);
    corner_uv(atlas.rect(v.cell(x, z).texture), i % 4)
}

/// `positions` and `indices` are the surface of the terrain `v`: four
/// vertices per cell, cells row by row, and two triangles per cell.
pub open spec fn is_surface(v: TerrainView, positions: Seq<Point3>, indices: Seq<u32>) -> bool {
    &&& positions.len() == 4 * v.size * v.size
    &&& forall|i: int| 0 <= i < positions.len() ==> point_of(#[trigger] positions[i]) == v.mesh_vertex(i)
    &&& indices.len() == 6 * v.size * v.size
    &&& forall|j: int| 0 <= j < indices.len() ==> #[trigger] indices[j] == mesh_index(j)
}

/// Whatever geometry is drawn and whatever collides, for one terrain, they
/// have the same vertex positions and the same triangles.
pub proof fn lemma_render_collision_parity(
    v: TerrainView,
    render_positions: Seq<Point3>,
    render_indices: Seq<u32>,
    collision_positions: Seq<Point3>,
    collision_indices: Seq<u32>,
)
    requires
        is_surface(v, render_positions, render_indices),
        is_surface(v, collision_positions, collision_indices),
    ensures
        render_positions == collision_positions,
        render_indices == collision_indices,
{
    assert forall|i: int| 0 <= i < render_positions.len() implies render_positions[i] == collision_positions[i] by {
        assert(point_of(render_positions[i]) == point_of(collision_positions[i]));
    }
    assert(render_positions =~= collision_positions);
    assert(render_indices =~= collision_indices);
}

/// The triangle surface shared by the rendered and the collision geometry.
pub struct Surface {
    pub positions: Vec<Point3>,
    pub indices: Vec<u32>,
}

/// What is drawn: the surface with, for each vertex, the normals of the
/// faces it borders and its texture coordinates in atlas texels.
pub struct RenderGeometry {
    pub positions: Vec<Point3>,
    pub normals: Vec<(Vector3, Vector3)>,
    pub uvs: Vec<(u32, u32)>,
    pub indices: Vec<u32>,
}

/// What collides: the same surface as is drawn.
pub struct CollisionGeometry {
    pub positions: Vec<Point3>,
    pub indices: Vec<u32>,
}

impl Terrain {
    /// The height of cell `(x, z)`, or `own` where that cell is off the grid.
    fn height_or(&self, x: i64, z: i64, own: i32) -> (r: i32)
        requires
            self@.wf(),
        ensures
            r == self@.height_or(x as int, z as int, own as int),
    {
        if 0 <= x && x < self.size() as i64 && 0 <= z && z < self.size() as i64 {
            self.get(x as usize, z as usize).height
        } else {
            own
        }
    }

    /// The height of corner `k` of cell `(x, z)`.
    fn corner_height(&self, x: usize, z: usize, k: usize) -> (r: i32)
        requires
            self@.wf(),
            self@.in_grid(x as int, z as int),
            k < 4,
        ensures
            r == self@.corner_height(x as int, z as int, k as int),
    {
        let own = self.get(x, z).height;
        let cx: i64 = x as i64 + (k % 2) as i64;
        let cz: i64 = z as i64 + (k / 2) as i64;
        let a = self.height_or(cx - 1, cz - 1, own);
        let b = self.height_or(cx, cz - 1, own);
        let c = self.height_or(cx - 1, cz, own);
        let d = self.height_or(cx, cz, own);
        let sum: i64 = a as i64 + b as i64 + c as i64 + d as i64;
        proof {
            lemma_mean_bounds(sum as int, 4);
        }
        floor_div(sum as i128, 4) as i32
    }

    /// Corner `k` of the `q`-th cell.
    fn vertex(&self, q: usize, k: usize) -> (r: Point3)
        requires
            self@.wf(),
            q < self@.size * self@.size,
            k < 4,
        ensures
            point_of(r) == self@.vertex(q as int, k as int),
    {
        let n = self.size();
        let x = q % n;
        let z = q / n;
        proof {
            assert(z < n) by (nonlinear_arith)
                requires
                    q < n * n,
                    z == q / n,
                    n > 0,
            ;
        }
        let y = self.corner_height(x, z, k);
        (self.index_to_world(x + k % 2), y, self.index_to_world(z + k / 2))
    }

    /// The shared surface: four vertices per cell, cells row by row, and two
    /// triangles per cell.
    pub fn build_surface(&self) -> (r: Surface)
        requires
            self@.wf(),
        ensures
            is_surface(self@, r.positions@, r.indices@),
    {
        let n = self.size();
        let ghost v = self@;
        proof {
            assert(n * n <= MAX_GRID_SIZE * MAX_GRID_SIZE) by (nonlinear_arith)
                requires
                    n <= MAX_GRID_SIZE,
            ;
        }
        let cells = n * n;
        assert(cells <= 0x1000_0000);
        let mut positions: Vec<Point3> = Vec::new();
        let mut indices: Vec<u32> = Vec::new();
        let mut q: usize = 0;
        while q < cells
            invariant
                v == self@,
                v.wf(),
                n == v.size,
                cells == n * n,
                cells <= MAX_GRID_SIZE * MAX_GRID_SIZE,
                0 <= q <= cells,
                positions@.len() == 4 * q,
                indices@.len() == 6 * q,
                forall|i: int| 0 <= i < 4 * q ==> point_of(#[trigger] positions@[i]) == v.mesh_vertex(i),
                forall|j: int| 0 <= j < 6 * q ==> #[trigger] indices@[j] == mesh_index(j),
            decreases cells - q,
        {
            let mut k: usize = 0;
            while k < 4
                invariant
                    v == self@,
                    v.wf(),
                    q < cells,
                    cells == v.size * v.size,
                    0 <= k <= 4,
                    positions@.len() == 4 * q + k,
                    forall|i: int| 0 <= i < 4 * q + k ==> point_of(#[trigger] positions@[i]) == v.mesh_vertex(i),
                decreases 4 - k,
            {
                let p = self.vertex(q, k);
                proof {
                    lemma_fundamental_div_mod_converse(4 * q + k, 4, q as int, k as int);
                }
                positions.push(p);
                k = k + 1;
            }
            let base: u32 = (4 * q) as u32;
            indices.push(base);
            indices.push(base + 2);
            indices.push(base + 1);
            indices.push(base + 2);
            indices.push(base + 3);
            indices.push(base + 1);
            proof {
                assert forall|j: int| 0 <= j < 6 * (q + 1) implies #[trigger] indices@[j] == mesh_index(j) by {
                    if j >= 6 * q {
                        let t = j - 6 * q;
                        lemma_fundamental_div_mod_converse(j, 6, q as int, t);
                    }
                }
            }
            q = q + 1;
        }
        assert(4 * cells == 4 * v.size * v.size && 6 * cells == 6 * v.size * v.size) by (nonlinear_arith)
            requires
                cells == v.size * v.size,
        ;
        Surface { positions, indices }
    }
}

/// Both triangles of every cell face upward: the vertical part of each face
/// normal is the square of the cell width, so no face normal is zero.
pub proof fn lemma_faces_point_up(v: TerrainView, q: int)
    requires
        v.wf(),
        0 <= q < v.size * v.size,
    ensures
        v.first_face(q).1 == v.scale * v.scale,
        v.second_face(q).1 == v.scale * v.scale,
{
    let n = v.size as int;
    let s = v.scale as int;
    let x = q % n;
    let z = q / n;
    assert((x + 1) * s - x * s == s) by (nonlinear_arith);
    assert((z + 1) * s - z * s == s) by (nonlinear_arith);
    assert(corner_dx(0) == 0 && corner_dz(0) == 0);
    assert(corner_dx(1) == 1 && corner_dz(1) == 0);
    assert(corner_dx(2) == 0 && corner_dz(2) == 1);
    assert(corner_dx(3) == 1 && corner_dz(3) == 1);
    let corner0 = v.vertex(q, 0);
    let corner1 = v.vertex(q, 1);
    let corner2 = v.vertex(q, 2);
    let corner3 = v.vertex(q, 3);
    let a = sub3(corner2, corner0);
    let b = sub3(corner1, corner0);
    assert(a.0 == 0 && a.2 == s && b.0 == s && b.2 == 0);
    assert(cross(a, b).1 == s * s) by (nonlinear_arith)
        requires
            a.0 == 0 && a.2 == s && b.0 == s && b.2 == 0,
    ;
    let c = sub3(corner3, corner2);
    let d = sub3(corner1, corner2);
    assert(c.0 == s && c.2 == 0 && d.0 == s && d.2 == -s);
    assert(cross(c, d).1 == s * s) by (nonlinear_arith)
        requires
            c.0 == s && c.2 == 0 && d.0 == s && d.2 == -s,
    ;
}

/// The product of two coordinate differences.
fn mul_diff(a: i128, b: i128) -> (r: i128)
    requires
        -0x2_0000_0000 <= a <= 0x2_0000_0000,
        -0x2_0000_0000 <= b <= 0x2_0000_0000,
    ensures
        r == a * b,
        -0x4_0000_0000_0000_0000 <= r <= 0x4_0000_0000_0000_0000,
{
    proof {
        assert(-0x4_0000_0000_0000_0000 <= a * b <= 0x4_0000_0000_0000_0000) by (nonlinear_arith)
            requires
                -0x2_0000_0000 <= a <= 0x2_0000_0000,
                -0x2_0000_0000 <= b <= 0x2_0000_0000,
        ;
    }
    a * b
}

/// The normal of the triangle `(a, b, c)`: the cross product of its edges.
pub fn face_normal_exec(a: Point3, b: Point3, c: Point3) -> (r: Vector3)
    ensures
        vector_of(r) == face_normal(point_of(a), point_of(b), point_of(c)),
{
    let v: (i128, i128, i128) = (b.0 as i128 - a.0 as i128, b.1 as i128 - a.1 as i128, b.2 as i128 - a.2 as i128);
    let w: (i128, i128, i128) = (c.0 as i128 - a.0 as i128, c.1 as i128 - a.1 as i128, c.2 as i128 - a.2 as i128);
    (
        mul_diff(v.1, w.2) - mul_diff(v.2, w.1),
        mul_diff(v.2, w.0) - mul_diff(v.0, w.2),
        mul_diff(v.0, w.1) - mul_diff(v.1, w.0),
    )
}

/// The render geometry of a terrain: the shared surface, each vertex's face
/// normals, and its texture coordinates from the atlas tile of its cell.
pub fn build_render_geometry(grid: &Terrain, atlas: &TextureAtlas) -> (r: RenderGeometry)
    requires
        grid@.wf(),
    ensures
        is_surface(grid@, r.positions@, r.indices@),
        r.normals@.len() == 4 * grid@.size * grid@.size,
        forall|i: int|
            0 <= i < r.normals@.len() ==> (vector_of(#[trigger] r.normals@[i].0), vector_of(
                r.normals@[i].1,
            )) == grid@.mesh_normals(i),
        forall|i: int|
            0 <= i < r.normals@.len() ==> #[trigger] r.normals@[i].0.1 == grid@.scale * grid@.scale
                && r.normals@[i].1.1 == grid@.scale * grid@.scale,
        r.uvs@.len() == 4 * grid@.size * grid@.size,
        forall|i: int| 0 <= i < r.uvs@.len() ==> #[trigger] r.uvs@[i] == mesh_uv(grid@, atlas, i),
{
    let ghost v = grid@;
    let surface = grid.build_surface();
    let n = grid.size();
    proof {
        assert(n * n <= MAX_GRID_SIZE * MAX_GRID_SIZE) by (nonlinear_arith)
            requires
                n <= MAX_GRID_SIZE,
        ;
    }
    let cells = n * n;
    assert(cells <= 0x1000_0000);
    proof {
        assert(4 * cells == 4 * v.size * v.size) by (nonlinear_arith)
            requires
                cells == v.size * v.size,
        ;
    }
    let mut normals: Vec<(Vector3, Vector3)> = Vec::new();
    let mut uvs: Vec<(u32, u32)> = Vec::new();
    let mut q: usize = 0;
    while q < cells
        invariant
            v == grid@,
            v.wf(),
            n == v.size,
            cells == n * n,
            cells <= 0x1000_0000,
            4 * cells == 4 * v.size * v.size,
            is_surface(v, surface.positions@, surface.indices@),
            0 <= q <= cells,
            normals@.len() == 4 * q,
            uvs@.len() == 4 * q,
            forall|i: int|
                0 <= i < 4 * q ==> (vector_of(#[trigger] normals@[i].0), vector_of(normals@[i].1))
                    == v.mesh_normals(i),
            forall|i: int|
                0 <= i < 4 * q ==> #[trigger] normals@[i].0.1 == v.scale * v.scale && normals@[i].1.1
                    == v.scale * v.scale,
            forall|i: int| 0 <= i < 4 * q ==> #[trigger] uvs@[i] == mesh_uv(v, atlas, i),
        decreases cells - q,
    {
        let b = 4 * q;
        proof {
            assert(b + 3 < 4 * cells);
            lemma_fundamental_div_mod_converse(b as int, 4, q as int, 0);
            lemma_fundamental_div_mod_converse(b + 1, 4, q as int, 1);
            lemma_fundamental_div_mod_converse(b + 2, 4, q as int, 2);
            lemma_fundamental_div_mod_converse(b + 3, 4, q as int, 3);
            lemma_faces_point_up(v, q as int);
        }
        let corner0 = surface.positions[b];
        let corner1 = surface.positions[b + 1];
        let corner2 = surface.positions[b + 2];
        let corner3 = surface.positions[b + 3];
        let first = face_normal_exec(corner0, corner2, corner1);
        let second = face_normal_exec(corner2, corner3, corner1);
        normals.push((first, first));
        normals.push((first, second));
        normals.push((first, second));
        normals.push((second, second));
        let x = q % n;
        let z = q / n;
        proof {
            assert(z < n) by (nonlinear_arith)
                requires
                    q < n * n,
                    z == q / n,
                    n > 0,
            ;
        }
        let rect = atlas.lookup(grid.get(x, z).texture);
        uvs.push((rect.left, rect.bottom));
        uvs.push((rect.right, rect.bottom));
        uvs.push((rect.left, rect.top));
        uvs.push((rect.right, rect.top));
        q = q + 1;
    }
    RenderGeometry { positions: surface.positions, normals, uvs, indices: surface.indices }
}

/// The collision geometry of a terrain: the shared surface alone.
pub fn build_collision_geometry(grid: &Terrain) -> (r: CollisionGeometry)
    requires
        grid@.wf(),
    ensures
        is_surface(grid@, r.positions@, r.indices@),
{
    let surface = grid.build_surface();
    CollisionGeometry { positions: surface.positions, indices: surface.indices }
}

/// A copy of a vector of plain values.
fn copy_vec<T: Copy>(src: &Vec<T>) -> (r: Vec<T>)
    ensures
        r@ == src@,
{
    let mut r: Vec<T> = Vec::new();
    let mut i: usize = 0;
    while i < src.len()
        invariant
            0 <= i <= src@.len(),
            r@ == src@.take(i as int),
        decreases src@.len() - i,
    {
        r.push(src[i]);
        proof {
            assert(src@.take(i as int).push(src@[i as int]) =~= src@.take(i + 1));
        }
        i = i + 1;
    }
    assert(src@.take(src@.len() as int) =~= src@);
    r
}

impl Terrain {
    /// The geometry that is drawn and the geometry that collides, both taken
    /// from one surface.
    pub fn to_mesh(&self, atlas: &TextureAtlas) -> (r: (RenderGeometry, CollisionGeometry))
        requires
            self@.wf(),
        ensures
            is_surface(self@, r.0.positions@, r.0.indices@),
            r.0.normals@.len() == 4 * self@.size * self@.size,
            forall|i: int|
                0 <= i < r.0.normals@.len() ==> (vector_of(#[trigger] r.0.normals@[i].0), vector_of(
                    r.0.normals@[i].1,
                )) == self@.mesh_normals(i),
            r.0.uvs@.len() == 4 * self@.size * self@.size,
            forall|i: int| 0 <= i < r.0.uvs@.len() ==> #[trigger] r.0.uvs@[i] == mesh_uv(self@, atlas, i),
            r.1.positions@ == r.0.positions@,
            r.1.indices@ == r.0.indices@,
    {
        let render = build_render_geometry(self, atlas);
        let collision = CollisionGeometry {
            positions: copy_vec(&render.positions),
            indices: copy_vec(&render.indices),
        };
        (render, collision)
    }
}

} // verus!
