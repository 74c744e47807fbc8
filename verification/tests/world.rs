//! Worlds, the quality pre-filter, and the breadth-first search against
//! terrains with known answers.
use monolithium::CellTerrain;
use monolithium::FindOptions;
use monolithium::Terrain;
use monolithium::World;

#[test]
fn init_exact_seed_617() {
    let mut world = World::new();
    world.init(617);
    assert_eq!(world.seed, 617);
    // The first hill octave's draws, after the 48 discarded instances.
    assert_eq!(world.hill.noise[0].xoff_num, 403704868404632);
    assert_eq!(world.hill.noise[0].yoff_num, 2149902198289083);
    assert_eq!(world.hill.noise[0].zoff_num, 839865738992980);
    let expected: [u8; 8] = [86, 20, 11, 155, 62, 29, 250, 221];
    for i in 0..8 {
        assert_eq!(world.hill.noise[0].map[i], expected[i]);
    }
    assert_eq!(world.hill.noise.len(), 10);
    assert_eq!(world.depth.noise.len(), 16);
}

#[test]
fn init_reuses_in_place() {
    let mut a = World::new();
    a.init(617);
    a.init(42);
    a.init(617);
    let mut b = World::new();
    b.init(617);
    assert_eq!(a.hill.noise[3].xoff_num, b.hill.noise[3].xoff_num);
    assert_eq!(a.depth.noise[15].map, b.depth.noise[15].map);
}

#[test]
fn fast_and_exact_discard_agree_for_617() {
    // For seed 617 the 48 discarded instances make no rejection re-draws,
    // so the fast fixed-count path lands on the same state.
    let mut a = World::new();
    a.init(617);
    let mut b = World::new();
    b.init_fast(617);
    assert_eq!(a.hill.noise[0].xoff_num, b.hill.noise[0].xoff_num);
    assert_eq!(a.hill.noise[0].map, b.hill.noise[0].map);
}

#[test]
fn good_perlin_fracts_values() {
    assert!(!World::good_perlin_fracts(0));
    assert!(!World::good_perlin_fracts(42));
    assert!(!World::good_perlin_fracts(617));
    assert!(World::good_perlin_fracts(120));
}

#[test]
fn cell_terrain_answers_deterministically() {
    let t = CellTerrain::new(vec![(0, 0), (3, -7)]);
    assert!(t.is_monolith(0, 0));
    assert!(t.is_monolith(0, 0));
    assert!(t.is_monolith(3, -7));
    assert!(!t.is_monolith(1, 0));
    assert!(!t.is_monolith(-3, 7));
}

#[test]
fn get_monolith_single_cell() {
    let world = World::new();
    let t = CellTerrain::new(vec![(0, 0)]);
    let m = world.get_monolith(&t, 0, 0, 1).unwrap();
    assert_eq!(m.seed, 0);
    // The start cell is seeded once directly and once as the centre probe
    // of the disk, and each confirmed pop counts: area 2.
    assert_eq!(m.area, 2);
    assert_eq!((m.minx, m.minz, m.maxx, m.maxz), (0, 0, 0, 0));
}

#[test]
fn get_monolith_none_off_cell() {
    let world = World::new();
    let t = CellTerrain::new(vec![(0, 0)]);
    assert!(world.get_monolith(&t, 5, 5, 1).is_none());
}

#[test]
fn get_monolith_row_keeps_sentinel_box() {
    let world = World::new();
    let t = CellTerrain::new(vec![(10, 0), (11, 0), (12, 0)]);
    let m = world.get_monolith(&t, 10, 0, 1).unwrap();
    // Three cells walked plus the duplicated centre probe.
    assert_eq!(m.area, 4);
    // No cell is 32-aligned on both axes, so the inverted sentinel box
    // survives.
    assert_eq!((m.minx, m.minz, m.maxx, m.maxz), (42, 32, -22, -32));
}

#[test]
fn find_monoliths_merges_same_spot() {
    let world = World::new();
    let t = CellTerrain::new(vec![(0, 0), (1, 0)]);
    let opts = FindOptions::default().around(0, 0, 1).step(1);
    let found = world.find_monoliths(&t, &opts, 1);
    // Probes at (0,0) and (1,0) discover the same region; the records
    // agree on (seed, centre) and merge.
    assert_eq!(found.len(), 1);
    assert_eq!(found[0].area, 3);
    assert_eq!((found[0].minx, found[0].minz, found[0].maxx, found[0].maxz), (0, 0, 0, 0));
}

#[test]
fn find_monoliths_empty_region() {
    let world = World::new();
    let t = CellTerrain::new(vec![]);
    let opts = FindOptions::default().around(0, 0, 64).step(16);
    let found = world.find_monoliths(&t, &opts, 1);
    assert_eq!(found.len(), 0);
}

#[test]
fn find_monoliths_honors_limit() {
    let world = World::new();
    let t = CellTerrain::new(vec![(0, 0), (100, 0)]);
    let opts = FindOptions::default().around(0, 0, 100).step(100).limit(1);
    let found = world.find_monoliths(&t, &opts, 1);
    assert_eq!(found.len(), 1);
    let all = world.find_monoliths(&t, &FindOptions::default().around(0, 0, 100).step(100), 1);
    assert_eq!(all.len(), 2);
}

#[test]
fn find_monolith_first_hit() {
    let world = World::new();
    let t = CellTerrain::new(vec![(0, 0), (1, 0)]);
    let opts = FindOptions::default().around(0, 0, 4).step(2);
    let m = world.find_monolith(&t, &opts, 1).unwrap();
    assert!(m.area > 0);
    assert_eq!(m.seed, 0);
    let none = world.find_monolith(&t, &FindOptions::default().around(50, 50, 4).step(2), 1);
    assert!(none.is_none());
}

#[test]
fn get_monolith_quantizes_in_fast_area_mode() {
    let world = World::new();
    let t = CellTerrain::new(vec![(0, 0)]);
    // In fast-area mode each confirmed probe stands for a 4x4 patch.
    let m = world.get_monolith(&t, 0, 0, 4).unwrap();
    assert_eq!(m.area, 32);
    assert_eq!((m.minx, m.minz, m.maxx, m.maxz), (0, 0, 0, 0));
    // A probe off the cell finds nothing, whatever the mode.
    assert!(world.get_monolith(&t, 1, 1, 4).is_none());
}

#[test]
fn get_monolith_bridges_disjoint_lobes() {
    let world = World::new();
    // Two aligned cells 64 blocks apart: the long-range ring from the
    // first reaches the second even though no step-neighbour chain does.
    let t = CellTerrain::new(vec![(0, 0), (64, 64)]);
    let m = world.get_monolith(&t, 0, 0, 1).unwrap();
    assert_eq!(m.area, 4);
    assert_eq!((m.minx, m.minz, m.maxx, m.maxz), (0, 0, 64, 64));
}
