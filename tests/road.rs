use terrain_gen::road::{carve_road, ROAD_RADIUS};
use terrain_gen::section::TextureSections;
use terrain_gen::terrain::{Quad, Terrain};

fn cells(t: &Terrain) -> Vec<Quad> {
    let n = t.size();
    let mut out = Vec::new();
    for z in 0..n {
        for x in 0..n {
            out.push(t.get_cell(x, z).unwrap());
        }
    }
    out
}

fn straight_path() -> Vec<(i32, i32)> {
    (0..10).map(|i| (i * 1000 - 5000, 0)).collect()
}

#[test]
fn carving_a_level_grid_keeps_its_height() {
    let h = 1234;
    let mut t = Terrain::new(20, 1000, &vec![h; 400]).unwrap();
    t.register_road(&straight_path());
    for q in cells(&t) {
        assert_eq!(q.height, h);
    }
    // Windows of radius 3 around columns 6..=14 of row 10.
    assert_eq!(t.get_cell(2, 10).unwrap().texture, TextureSections::Gravel);
    assert_eq!(t.get_cell(3, 10).unwrap().texture, TextureSections::Rock);
    assert_eq!(t.get_cell(17, 10).unwrap().texture, TextureSections::Rock);
    assert_eq!(t.get_cell(18, 10).unwrap().texture, TextureSections::Gravel);
    assert_eq!(t.get_cell(10, 6).unwrap().texture, TextureSections::Gravel);
    assert_eq!(t.get_cell(10, 7).unwrap().texture, TextureSections::Rock);
    assert_eq!(t.get_cell(10, 13).unwrap().texture, TextureSections::Rock);
    assert_eq!(t.get_cell(10, 14).unwrap().texture, TextureSections::Gravel);
    assert_eq!(t.get_cell(0, 0).unwrap().texture, TextureSections::Gravel);
}

#[test]
fn carving_twice_over_a_level_corridor_changes_nothing() {
    let mut once = Terrain::new(20, 1000, &vec![-700; 400]).unwrap();
    once.register_road(&straight_path());
    let mut twice = Terrain::new(20, 1000, &vec![-700; 400]).unwrap();
    twice.register_road(&straight_path());
    twice.register_road(&straight_path());
    assert_eq!(cells(&once), cells(&twice));
}

#[test]
fn carving_levels_to_the_rounded_down_mean() {
    // The window of radius 3 covers the whole 3 x 3 grid: (0 + 1 + ... + 7 - 9) / 9 = 19 / 9.
    let mut t = Terrain::new(3, 1, &vec![0, 1, 2, 3, 4, 5, 6, 7, -9]).unwrap();
    carve_road(&mut t, &[(-1, -1), (0, 0)], ROAD_RADIUS);
    for q in cells(&t) {
        assert_eq!(q, Quad { height: 2, texture: TextureSections::Rock });
    }
}

#[test]
fn carving_rounds_negative_means_down() {
    let mut t = Terrain::new(3, 1, &vec![0, 0, 0, 0, -1, 0, 0, 0, 0]).unwrap();
    carve_road(&mut t, &[(1, 1), (0, 0)], 1);
    for q in cells(&t) {
        assert_eq!(q, Quad { height: -1, texture: TextureSections::Rock });
    }
}

#[test]
fn carving_a_small_window_leaves_the_rest() {
    let mut t = Terrain::new(5, 1, &(0..25).collect::<Vec<i32>>()).unwrap();
    // A segment of length 0 places no point; each of the two unit segments
    // places its second end: (0, -1) in cell (2, 1), then (0, 0) in cell (2, 2).
    carve_road(&mut t, &[(0, 0), (0, 0), (0, -1), (0, 0)], 0);
    assert_eq!(t.get_cell(2, 1), Some(Quad { height: 7, texture: TextureSections::Rock }));
    assert_eq!(t.get_cell(2, 2), Some(Quad { height: 12, texture: TextureSections::Rock }));
    assert_eq!(t.get_cell(2, 3), Some(Quad { height: 17, texture: TextureSections::Gravel }));
    assert_eq!(t.get_cell(3, 2), Some(Quad { height: 13, texture: TextureSections::Gravel }));
}

#[test]
fn carving_off_the_terrain_changes_nothing() {
    let mut t = Terrain::new(4, 10, &(0..16).collect::<Vec<i32>>()).unwrap();
    let before = cells(&t);
    carve_road(&mut t, &[(500, 500), (900, 500)], 3);
    assert_eq!(cells(&t), before);
    carve_road(&mut t, &[(0, 0)], 3);
    assert_eq!(cells(&t), before);
}

#[test]
fn segment_points_are_spaced_one_cell_apart() {
    // A segment three cells long places three points, at x = -5, -15 and -25.
    let mut t = Terrain::new(8, 10, &vec![100; 64]).unwrap();
    carve_road(&mut t, &[(-35, 5), (-5, 5)], 0);
    let rock: Vec<(usize, usize)> = (0..8)
        .flat_map(|z| (0..8).map(move |x| (x, z)))
        .filter(|&(x, z)| t.get_cell(x, z).unwrap().texture == TextureSections::Rock)
        .collect();
    assert_eq!(rock, vec![(1, 4), (2, 4), (3, 4)]);
}

#[test]
fn points_are_one_step_apart_on_a_segment_of_one_and_a_half_steps() {
    // From x = -1 toward x = -16 with step 10: points at -1 and -11, in
    // columns 3 and 2 (not at -1 and -9, which would both fall in column 3).
    let mut t = Terrain::new(8, 10, &vec![100; 64]).unwrap();
    carve_road(&mut t, &[(-16, 5), (-1, 5)], 0);
    let rock: Vec<(usize, usize)> = (0..8)
        .flat_map(|z| (0..8).map(move |x| (x, z)))
        .filter(|&(x, z)| t.get_cell(x, z).unwrap().texture == TextureSections::Rock)
        .collect();
    assert_eq!(rock, vec![(2, 4), (3, 4)]);
}
