use noise::{Fbm, NoiseFn, Simplex};
use terrain_gen::terrain::Terrain;
use terrain_gen::UNIT;

/// The layered noise of the height field, sampled on a `size * size` grid row
/// by row, in units.
fn sample(seed: u32, size: usize) -> Vec<i32> {
    let octaves = [(50.0, 2.5), (10.0, 1.5), (5.0, 0.5), (75.0, 5.5), (100.0, 20.5)];
    let fbms: Vec<Fbm<Simplex>> = (0..octaves.len() as u32).map(|i| Fbm::new(seed + i)).collect();
    let mut out = Vec::new();
    for z in 0..size {
        for x in 0..size {
            let h: f32 = octaves
                .iter()
                .zip(fbms.iter())
                .map(|(&(d, m), f)| (f.get([x as f64 / d, z as f64 / d]) * m) as f32)
                .sum();
            out.push((h as f64 * UNIT as f64).round() as i32);
        }
    }
    out
}

#[test]
fn noise_terrain_height_at_origin_is_pinned() {
    let t = Terrain::new(10, UNIT as u32, &sample(1, 10)).unwrap();
    let again = Terrain::new(10, UNIT as u32, &sample(1, 10)).unwrap();
    assert_eq!(t.get_height(0, 0), again.get_height(0, 0));
    // Cell (5, 5) of seed 1: -6.859 world units.
    assert_eq!(t.get_height(0, 0), Some(-6859));
}
