use terrain_gen::mesh::{build_collision_geometry, build_render_geometry, face_normal_exec};
use terrain_gen::section::TextureAtlas;
use terrain_gen::terrain::Terrain;

fn two_by_two() -> Terrain {
    Terrain::new(2, 1, &vec![0, 4, 8, 12]).unwrap()
}

#[test]
fn render_and_collision_share_the_surface() {
    let heights: Vec<i32> = (0..49).map(|i| (i * 37 % 11) as i32 * 900 - 4000).collect();
    let mut t = Terrain::new(7, 3, &heights).unwrap();
    t.register_road(&[(-9, -9), (9, 9)]);
    let atlas = TextureAtlas::strip(512);
    let render = build_render_geometry(&t, &atlas);
    let collision = build_collision_geometry(&t);
    assert_eq!(render.positions, collision.positions);
    assert_eq!(render.indices, collision.indices);
    let (r2, c2) = t.to_mesh(&atlas);
    assert_eq!(r2.positions, c2.positions);
    assert_eq!(r2.indices, c2.indices);
    assert_eq!(r2.positions, render.positions);
    assert_eq!(render.positions.len(), 4 * 49);
    assert_eq!(render.normals.len(), 4 * 49);
    assert_eq!(render.uvs.len(), 4 * 49);
    assert_eq!(render.indices.len(), 6 * 49);
}

#[test]
fn corners_average_the_cells_that_share_them() {
    let render = build_render_geometry(&two_by_two(), &TextureAtlas::strip(1024));
    assert_eq!(render.positions[0], (-1, 0, -1));
    assert_eq!(render.positions[1], (0, 1, -1));
    assert_eq!(render.positions[2], (-1, 2, 0));
    assert_eq!(render.positions[3], (0, 6, 0));
    // The last cell, (1, 1): three of the four cells at its far corner are off the grid.
    assert_eq!(render.positions[15], (1, 12, 1));
    assert_eq!(render.positions[12], (0, 6, 0));
}

#[test]
fn corner_means_round_down() {
    let render = build_render_geometry(&Terrain::new(2, 1, &vec![-1, 0, 0, 0]).unwrap(), &TextureAtlas::strip(1));
    // Corner (1, 1) is shared by all four cells: -1 / 4 rounds down to -1.
    assert_eq!(render.positions[3], (0, -1, 0));
    // Cell (1, 0)'s corner at (2, 0): its own height stands in for the off-grid cells.
    assert_eq!(render.positions[5], (1, 0, -1));
}

#[test]
fn triangles_follow_the_fixed_winding() {
    let render = build_render_geometry(&two_by_two(), &TextureAtlas::strip(1024));
    assert_eq!(&render.indices[0..12], &[0, 2, 1, 2, 3, 1, 4, 6, 5, 6, 7, 5]);
    assert_eq!(&render.indices[18..24], &[12, 14, 13, 14, 15, 13]);
}

#[test]
fn vertex_normals_name_the_faces_they_border() {
    let render = build_render_geometry(&two_by_two(), &TextureAtlas::strip(1024));
    let first = (-1, 1, -2);
    let second = (-4, 1, -5);
    assert_eq!(render.normals[0], (first, first));
    assert_eq!(render.normals[1], (first, second));
    assert_eq!(render.normals[2], (first, second));
    assert_eq!(render.normals[3], (second, second));
}

#[test]
fn face_normals_point_up_by_the_square_of_the_scale() {
    let heights: Vec<i32> = (0..16).map(|i| (i * 7919 % 13) as i32 * 1000 - 6000).collect();
    let t = Terrain::new(4, 25, &heights).unwrap();
    let render = build_render_geometry(&t, &TextureAtlas::strip(8));
    for (a, b) in render.normals {
        assert_eq!(a.1, 625);
        assert_eq!(b.1, 625);
    }
}

#[test]
fn face_normal_is_the_cross_product_of_the_edges() {
    assert_eq!(face_normal_exec((0, 0, 0), (1, 0, 0), (0, 1, 0)), (0, 0, 1));
    assert_eq!(face_normal_exec((1, 1, 1), (1, 1, 1), (5, 2, 3)), (0, 0, 0));
    assert_eq!(
        face_normal_exec((i32::MIN, i32::MAX, 0), (i32::MAX, i32::MIN, 0), (0, 0, i32::MAX)),
        (-(u32::MAX as i128) * i32::MAX as i128, -(u32::MAX as i128) * i32::MAX as i128, u32::MAX as i128)
    );
}

#[test]
fn uvs_come_from_the_tile_of_the_cell() {
    let t = Terrain::new(2, 1, &vec![0, -6000, 8000, 5000]).unwrap();
    let render = build_render_geometry(&t, &TextureAtlas::strip(1024));
    // Cell (0, 0): gravel, the third tile.
    assert_eq!(&render.uvs[0..4], &[(2048, 0), (3072, 0), (2048, 1024), (3072, 1024)]);
    // Cell (1, 0): grass, the first tile.
    assert_eq!(render.uvs[4], (0, 0));
    // Cell (0, 1): snow, the fifth tile.
    assert_eq!(render.uvs[8], (4096, 0));
    // Cell (1, 1): rock, the fourth tile.
    assert_eq!(render.uvs[15], (4096, 1024));
}
