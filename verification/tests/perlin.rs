//! Octave initialisation against the host's exact draws.
use monolithium::FractalPerlin;
use monolithium::JavaRNG;
use monolithium::Perlin;

#[test]
fn init_produces_permutation() {
    // After initialisation the table is a permutation of 0..=255.
    let mut rng = JavaRNG::from_seed(617);
    let mut p = Perlin::new();
    p.init(&mut rng);
    let mut sorted = p.map.clone();
    sorted.sort();
    for i in 0..256 {
        assert_eq!(sorted[i] as usize, i);
    }
}

#[test]
fn init_exact_offsets_seed_42() {
    let mut rng = JavaRNG::from_seed(42);
    let mut p = Perlin::new();
    p.init(&mut rng);
    assert_eq!(p.xoff_num, 6553311036568663);
    assert_eq!(p.yoff_num, 6153929945656833);
    assert_eq!(p.zoff_num, 2780697647996378);
}

#[test]
fn init_exact_table_seed_42() {
    let expected: [u8; 16] = [70, 234, 61, 86, 42, 181, 32, 253, 252, 26, 22, 191, 175, 210, 90, 141];
    let mut rng = JavaRNG::from_seed(42);
    let mut p = Perlin::new();
    p.init(&mut rng);
    for i in 0..16 {
        assert_eq!(p.map[i], expected[i]);
    }
    assert_eq!(rng.state(), 142157612252781);
}

#[test]
fn discard_matches_init_draws() {
    // Discarding one octave advances the generator exactly as initialising
    // one does.
    let mut a = JavaRNG::from_seed(42);
    let mut b = JavaRNG::from_seed(42);
    let mut p = Perlin::new();
    p.init(&mut a);
    Perlin::discard(&mut b, 1);
    assert_eq!(a.state(), b.state());
}

#[test]
fn discard_fast_is_fixed_step_count() {
    let mut a = JavaRNG::from_seed(617);
    let mut b = JavaRNG::from_seed(617);
    Perlin::discard_fast(&mut a, 48);
    for _ in 0..48 * 262 {
        b.step();
    }
    assert_eq!(a.state(), b.state());
}

#[test]
fn repeats_values() {
    let hill: FractalPerlin<10> = FractalPerlin::new();
    assert_eq!(hill.repeats(), 131_072);
    let depth: FractalPerlin<16> = FractalPerlin::new();
    assert_eq!(depth.repeats(), 8_388_608);
}

#[test]
fn scale_values() {
    assert_eq!(FractalPerlin::<10>::octave_scale(0), 1);
    assert_eq!(FractalPerlin::<10>::octave_scale(9), 512);
    let hill: FractalPerlin<10> = FractalPerlin::new();
    assert_eq!(hill.maxval(), 1024);
    assert_eq!(hill.tmaxval(), 2047);
    let depth: FractalPerlin<16> = FractalPerlin::new();
    assert_eq!(depth.maxval(), 65536);
    assert_eq!(depth.tmaxval(), 131071);
}

#[test]
fn fractal_init_chains_octaves() {
    // Initialising a 2-octave stack advances the generator exactly as two
    // single-octave initialisations do.
    let mut a = JavaRNG::from_seed(9);
    let mut b = JavaRNG::from_seed(9);
    let mut stack: FractalPerlin<2> = FractalPerlin::new();
    stack.init(&mut a);
    let mut p = Perlin::new();
    let mut q = Perlin::new();
    p.init(&mut b);
    q.init(&mut b);
    assert_eq!(a.state(), b.state());
    assert_eq!(stack.noise[0].map, p.map);
    assert_eq!(stack.noise[1].map, q.map);
    assert_eq!(stack.noise[1].zoff_num, q.zoff_num);
}

#[test]
fn corner_hash_reads_table_chain() {
    let mut rng = JavaRNG::from_seed(42);
    let mut p = Perlin::new();
    p.init(&mut rng);
    // map[0] == 70, then map[(0 + 70) & 0xFF], then one more chained read.
    let a = p.get_map(0) as usize;
    assert_eq!(a, 70);
    let b = p.get_map(a) as usize;
    let expect = p.get_map(b);
    assert_eq!(p.corner_hash(0, 0, 0, 0, 0, 0), expect);
    assert_eq!(p.get_map(300), p.get_map(300 % 256));
}

#[test]
fn grad_hash_is_low_nibble() {
    let mut rng = JavaRNG::from_seed(617);
    let mut p = Perlin::new();
    p.init(&mut rng);
    for (gx, gy, gz) in [(0usize, 0usize, 0usize), (255, 1, 300), (1000, 2000, 3000)] {
        let h = p.grad_hash(gx, gy, gz);
        assert!(h < 16);
        let a = p.get_map(gx % 256) as usize;
        let b = p.get_map((gy % 256) + a) as usize;
        assert_eq!(h, p.get_map(b + (gz % 256)) & 0x0F);
    }
}
