use terrain_gen::query::SpatialQuery;
use terrain_gen::section::{to_texture, TextureAtlas, TextureSections, UvCoords};
use terrain_gen::terrain::{ConfigurationError, Quad, Terrain, AROUND_RADIUS, MAX_GRID_SIZE};
use terrain_gen::UNIT;

fn ramp(size: usize) -> Vec<i32> {
    (0..size * size).map(|i| i as i32 * 7 - 300).collect()
}

fn ten_by_ten() -> Terrain {
    Terrain::new(10, UNIT as u32, &ramp(10)).unwrap()
}

#[test]
fn zero_size_is_a_configuration_error() {
    assert!(matches!(Terrain::new(0, 1, &vec![]), Err(ConfigurationError::ZeroSize)));
}

#[test]
fn zero_scale_is_a_configuration_error() {
    assert!(matches!(Terrain::new(2, 0, &vec![0; 4]), Err(ConfigurationError::ZeroScale)));
}

#[test]
fn oversized_grid_is_a_configuration_error() {
    assert!(matches!(Terrain::new(MAX_GRID_SIZE + 1, 1, &vec![]), Err(ConfigurationError::TooLarge)));
    assert!(matches!(Terrain::new(2, u32::MAX, &vec![0; 4]), Err(ConfigurationError::TooLarge)));
}

#[test]
fn wrong_sample_count_is_a_configuration_error() {
    assert!(matches!(Terrain::new(3, 1, &vec![0; 8]), Err(ConfigurationError::SampleCount)));
}

#[test]
fn cells_are_classified_by_height() {
    let t = Terrain::new(2, 1, &vec![-6000, -1, 4999, 7000]).unwrap();
    assert_eq!(t.get_cell(0, 0), Some(Quad { height: -6000, texture: TextureSections::Grass }));
    assert_eq!(t.get_cell(1, 0), Some(Quad { height: -1, texture: TextureSections::Grass2 }));
    assert_eq!(t.get_cell(0, 1), Some(Quad { height: 4999, texture: TextureSections::Gravel }));
    assert_eq!(t.get_cell(1, 1), Some(Quad { height: 7000, texture: TextureSections::Snow }));
    assert_eq!(t.get_cell(2, 0), None);
}

#[test]
fn band_thresholds() {
    assert_eq!(to_texture(-5001), TextureSections::Grass);
    assert_eq!(to_texture(-5000), TextureSections::Grass2);
    assert_eq!(to_texture(-1), TextureSections::Grass2);
    assert_eq!(to_texture(0), TextureSections::Gravel);
    assert_eq!(to_texture(4999), TextureSections::Gravel);
    assert_eq!(to_texture(5000), TextureSections::Rock);
    assert_eq!(to_texture(6999), TextureSections::Rock);
    assert_eq!(to_texture(7000), TextureSections::Snow);
}

#[test]
fn building_twice_gives_identical_cells() {
    let a = ten_by_ten();
    let b = ten_by_ten();
    for z in 0..10 {
        for x in 0..10 {
            assert_eq!(a.get_cell(x, z), b.get_cell(x, z));
        }
    }
}

#[test]
fn height_at_origin_of_ten_by_ten() {
    // The origin lies in cell (5, 5): sample 55, i.e. 55 * 7 - 300.
    let t = ten_by_ten();
    assert_eq!(t.get_height(0, 0), Some(85));
    assert_eq!(ten_by_ten().get_height(0, 0), Some(85));
}

#[test]
fn heights_inside_and_outside() {
    let t = ten_by_ten();
    assert_eq!(t.get_height(-5000, -5000), Some(-300));
    assert_eq!(t.get_height(4999, 4999), Some(99 * 7 - 300));
    assert_eq!(t.get_height(-4001, -5000), Some(-300));
    assert_eq!(t.get_height(-4000, -5000), Some(-293));
    assert_eq!(t.get_height(5000, 0), None);
    assert_eq!(t.get_height(0, 5000), None);
    assert_eq!(t.get_height(-5001, 0), None);
    assert_eq!(t.get_height(0, -5001), None);
}

#[test]
fn dimensions_and_index_mapping() {
    let t = ten_by_ten();
    assert_eq!(t.get_dimensions(), ((-5000, -5000), (5000, 5000)));
    assert_eq!(t.world_to_index(-5000, 4999), Some((0, 9)));
    assert_eq!(t.world_to_index(-1, 0), Some((4, 5)));
    assert_eq!(t.world_to_index(-5001, 0), None);
    assert_eq!(t.index_to_world(0), -5000);
    assert_eq!(t.index_to_world(10), 5000);
    let odd = Terrain::new(3, 1, &vec![0; 9]).unwrap();
    assert_eq!(odd.get_dimensions(), ((-1, -1), (2, 2)));
    assert_eq!(odd.world_to_index(-1, 1), Some((0, 2)));
    assert_eq!(odd.world_to_index(2, 0), None);
}

#[test]
fn neighborhood_is_clipped_at_the_corner() {
    let t = ten_by_ten();
    let n = t.get_neighborhood(-5000, -5000, 1);
    assert_eq!(n.len(), 3);
    assert!(n.iter().all(|row| row.len() == 3));
    assert_eq!(n[0], vec![None, None, None]);
    assert_eq!(n[1][0], None);
    assert_eq!(n[1][1], t.get_cell(0, 0));
    assert_eq!(n[1][2], t.get_cell(1, 0));
    assert_eq!(n[2][1], t.get_cell(0, 1));
    assert_eq!(n[2][2], t.get_cell(1, 1));
}

#[test]
fn neighborhood_of_a_point_off_the_terrain_keeps_the_cells_on_the_grid() {
    let t = ten_by_ten();
    // The point lies in column 11, row 5: only column 9 of the window is on the grid.
    let n = t.get_neighborhood(6000, 0, 2);
    assert_eq!(n.len(), 5);
    for (i, row) in n.iter().enumerate() {
        assert_eq!(row.len(), 5);
        assert_eq!(row[0], t.get_cell(9, 3 + i));
        assert!(row[1..].iter().all(|c| c.is_none()));
    }
    // One unit left of the lower corner: column -1, row 0.
    let m = t.get_neighborhood(-5001, -5000, 1);
    assert_eq!(m[1], vec![None, None, t.get_cell(0, 0)]);
    assert_eq!(m[2], vec![None, None, t.get_cell(0, 1)]);
    assert_eq!(m[0], vec![None, None, None]);
}

#[test]
fn neighborhood_far_from_the_terrain_is_empty() {
    let t = ten_by_ten();
    let n = t.get_neighborhood(-20000, 30000, 3);
    assert_eq!(n.len(), 7);
    assert!(n.iter().all(|row| row.len() == 7 && row.iter().all(|c| c.is_none())));
}

#[test]
fn neighborhood_of_radius_zero_is_the_cell() {
    let t = ten_by_ten();
    assert_eq!(t.get_neighborhood(0, 0, 0), vec![vec![t.get_cell(5, 5)]]);
}

#[test]
fn heights_around_is_the_flattened_window() {
    let t = ten_by_ten();
    let w = 2 * AROUND_RADIUS + 1;
    let around = t.get_heights_around(0, 0);
    assert_eq!(around.len(), w * w);
    let rows = t.get_neighborhood(0, 0, AROUND_RADIUS);
    for i in 0..w {
        for j in 0..w {
            assert_eq!(around[i * w + j], rows[i][j]);
        }
    }
    assert_eq!(around[AROUND_RADIUS * w + AROUND_RADIUS], t.get_cell(5, 5));
    assert_eq!(around.iter().filter(|c| c.is_some()).count(), 100);
    assert_eq!(t.get_heights_around(9000, 0).iter().filter(|c| c.is_some()).count(), 100);
    assert!(t.get_heights_around(40000, 0).iter().all(|c| c.is_none()));
}

#[test]
fn atlas_strip_places_sections_left_to_right() {
    let a = TextureAtlas::strip(1024);
    assert_eq!(a.lookup(TextureSections::Grass), UvCoords { top: 1024, bottom: 0, left: 0, right: 1024 });
    assert_eq!(a.lookup(TextureSections::Rock), UvCoords { top: 1024, bottom: 0, left: 3072, right: 4096 });
    assert_eq!(a.lookup(TextureSections::Snow), UvCoords { top: 1024, bottom: 0, left: 4096, right: 5120 });
    let r = UvCoords { top: 1, bottom: 2, left: 3, right: 4 };
    let s = UvCoords { top: 5, bottom: 6, left: 7, right: 8 };
    let b = TextureAtlas::new(r, s, r, s, r);
    assert_eq!(b.lookup(TextureSections::Grass2), s);
    assert_eq!(b.lookup(TextureSections::Snow), r);
}

#[test]
fn frozen_terrain_answers_the_same_queries() {
    let t = ten_by_ten();
    let q = SpatialQuery::freeze(ten_by_ten());
    assert_eq!(q.get_height(0, 0), t.get_height(0, 0));
    assert_eq!(q.get_height(5000, 0), None);
    assert_eq!(q.get_dimensions(), ((-5000, -5000), (5000, 5000)));
    assert_eq!(q.get_neighborhood(-5000, 4999, 2), t.get_neighborhood(-5000, 4999, 2));
    assert_eq!(q.terrain().get_cell(3, 4), t.get_cell(3, 4));
}
