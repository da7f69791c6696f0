use vstd::prelude::*;

use crate::terrain::{Quad, Terrain, TerrainView};

verus! {

/// A finished terrain, frozen: it answers height and neighbourhood queries
/// and can no longer be changed.
pub struct SpatialQuery {
    terrain: Terrain,
}

impl View for SpatialQuery {
    type V = TerrainView;

    closed spec fn view(&self) -> TerrainView {
        self.terrain@
    }
}

impl SpatialQuery {
    /// Freezes a terrain once carving is done.
    pub fn freeze(terrain: Terrain) -> (r: Self)
        requires
            terrain@.wf(),
        ensures
            r@ == terrain@,
            r@.wf(),
    {
        SpatialQuery { terrain }
    }

    /// The height of the terrain at a world point, if the point is on it.
    pub fn get_height(&self, x: i32, z: i32) -> (r: Option<i32>)
        requires
            self@.wf(),
        ensures
            r is Some <==> self@.contains(x as int, z as int),
            r matches Some(h) ==> h == self@.cell(
                self@.index_of(x as int),
                self@.index_of(z as int),
            ).height,
    {
        self.terrain.get_height(x, z)
    }

    /// The `(2 * radius + 1)` square window of cells around a world point.
    pub fn get_neighborhood(&self, x: i32, z: i32, radius: usize) -> (r: Vec<Vec<Option<Quad>>>)
        requires
            self@.wf(),
            radius < usize::MAX / 2,
        ensures
            r@.len() == 2 * radius + 1,
            forall|i: int| 0 <= i < r@.len() ==> #[trigger] r@[i]@.len() == 2 * radius + 1,
            forall|i: int, j: int|
                0 <= i < r@.len() && 0 <= j < 2 * radius + 1 ==> #[trigger] r@[i]@[j]
                    == self@.neighbor(x as int, z as int, radius as int, i, j),
    {
        self.terrain.get_neighborhood(x, z, radius)
    }

    /// The lower and the upper corner of the terrain in world coordinates.
    pub fn get_dimensions(&self) -> (r: ((i32, i32), (i32, i32)))
        requires
            self@.wf(),
        ensures
            r.0.0 == self@.min_corner() && r.0.1 == self@.min_corner(),
            r.1.0 == self@.max_corner() && r.1.1 == self@.max_corner(),
    {
        self.terrain.get_dimensions()
    }

    /// The frozen terrain, for reading.
    pub fn terrain(&self) -> (r: &Terrain)
        ensures
            r@ == self@,
    {
        &self.terrain
    }
}

} // verus!
