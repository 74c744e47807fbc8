//! Monolith records, rounding, options, seeds, and command plans.
use monolithium::FindCommand;
use monolithium::FindOptions;
use monolithium::Monolith;
use monolithium::SeedFactory;
use monolithium::SpawnCommand;
use monolithium::nearest;

#[test]
fn nearest_rounds_to_multiples() {
    assert_eq!(nearest(0, 4), 0);
    assert_eq!(nearest(1, 4), 0);
    assert_eq!(nearest(2, 4), 4);
    assert_eq!(nearest(5, 4), 4);
    assert_eq!(nearest(6, 4), 8);
    assert_eq!(nearest(-1, 4), 0);
    assert_eq!(nearest(-2, 4), 0);
    assert_eq!(nearest(-3, 4), 0);
    assert_eq!(nearest(-5, 4), 0);
    assert_eq!(nearest(-7, 4), -4);
    assert_eq!(nearest(7, 1), 7);
    assert_eq!(nearest(-7, 1), -7);
}

fn lith(seed: u64, area: u64, minx: i32, minz: i32, maxx: i32, maxz: i32) -> Monolith {
    Monolith { seed, area, minx, minz, maxx, maxz }
}

#[test]
fn centers_truncate_toward_zero() {
    let m = lith(1, 4, -3, -3, 2, 4);
    assert_eq!(m.center_x(), 0);
    assert_eq!(m.center_z(), 0);
    let m = lith(1, 4, -5, 3, -2, 5);
    assert_eq!(m.center_x(), -3);
    assert_eq!(m.center_z(), 4);
}

#[test]
fn equality_is_by_seed_and_center() {
    let a = lith(7, 100, 0, 0, 10, 10);
    let b = lith(7, 900, 1, 1, 9, 9);
    let c = lith(8, 100, 0, 0, 10, 10);
    let d = lith(7, 100, 0, 0, 12, 10);
    assert!(a.same_spot(&b));
    assert!(a == b);
    assert!(!a.same_spot(&c));
    assert!(a != c);
    assert!(a != d);
}

#[test]
fn ordering_is_area_then_seed_then_coords() {
    let small = lith(9, 16, 0, 0, 0, 0);
    let big = lith(1, 64, 0, 0, 0, 0);
    assert!(small.le(&big));
    assert!(!big.le(&small));
    let a = lith(1, 16, 0, 0, 0, 0);
    let b = lith(2, 16, -5, 0, 0, 0);
    assert!(a.le(&b));
    assert!(!b.le(&a));
    assert!(a.le(&a));
    let c = lith(1, 16, -1, 0, 0, 0);
    assert!(c.le(&a));
}

#[test]
fn options_builders() {
    let d = FindOptions::default();
    assert_eq!(d.step, 32);
    assert_eq!(d.limit, None);
    assert!(!d.threaded);
    assert!(!d.depth_wraps);
    let o = FindOptions::default().around(10, -10, 5).step(3).limit(2);
    assert_eq!((o.minx, o.maxx, o.minz, o.maxz), (5, 15, -15, -5));
    assert_eq!(o.step, 3);
    assert_eq!(o.limit, Some(2));
    let s = FindOptions::default().spawn(100).spacing(200);
    assert_eq!((s.minx, s.maxx), (-100, 100));
    assert_eq!(s.step, 200);
    let i = FindOptions::default().inbounds();
    assert_eq!((i.minx, i.maxx), (-12_550_824, 12_550_824));
    let w = FindOptions::default().wraps();
    assert_eq!((w.minx, w.maxx, w.minz, w.maxz), (0, 8_388_608, 0, 8_388_608));
    let dw = FindOptions::default().depth_wraps();
    assert!(dw.depth_wraps);
    assert_eq!(dw.maxx, 8_388_608);
    let t = FindOptions::default().threaded();
    assert!(t.threaded);
}

#[test]
fn seed_factory_totals_and_gets() {
    let one = SeedFactory::Seed { value: 617 };
    assert_eq!(one.total(), 1);
    assert_eq!(one.get(0), 617);
    let lin = SeedFactory::Linear { start: 1000, total: 50 };
    assert_eq!(lin.total(), 50);
    assert_eq!(lin.get(0), 1000);
    assert_eq!(lin.get(49), 1049);
    let half = SeedFactory::Ratio { num: 1, den: 2 };
    assert_eq!(half.total(), 1u64 << 47);
    assert_eq!(half.get(0), 0);
    assert_eq!(half.get(1), 2);
    assert_eq!(half.get(10), 20);
    let third = SeedFactory::Ratio { num: 1, den: 3 };
    assert_eq!(third.get(7), 21);
}

#[test]
fn seed_factory_random_stays_in_range() {
    let rnd = SeedFactory::Random { total: 100 };
    assert_eq!(rnd.total(), 100);
    for n in 0..100 {
        assert!(rnd.get(n) < 1u64 << 48);
    }
}

#[test]
fn find_command_plan() {
    let cmd = FindCommand { seed: 0, step: 256, area: 0 };
    let o = cmd.options();
    assert_eq!((o.minx, o.maxx, o.minz, o.maxz), (0, 8_388_608, 0, 8_388_608));
    assert_eq!(o.step, 256);
    assert!(o.threaded);
    assert!(o.depth_wraps);
    assert_eq!(o.limit, None);
}

#[test]
fn spawn_command_plan_and_chunks() {
    let cmd = SpawnCommand {
        seeds: SeedFactory::Linear { start: 0, total: 1001 },
        chunks: 10,
        radius: 51,
        limit: 1,
        area: 0,
        step: 50,
    };
    let o = cmd.options();
    assert_eq!((o.minx, o.maxx, o.minz, o.maxz), (-51, 51, -51, 51));
    assert_eq!(o.step, 50);
    assert_eq!(o.limit, Some(1));
    assert_eq!(cmd.chunk_count(), 101);
    assert_eq!(cmd.chunk_bounds(0), (0, 10));
    assert_eq!(cmd.chunk_bounds(100), (1000, 1010));
}

#[test]
fn sort_orders_records() {
    let mut v = vec![
        lith(5, 64, 0, 0, 0, 0),
        lith(1, 16, 4, 0, 0, 0),
        lith(1, 16, -4, 0, 0, 0),
        lith(9, 16, 0, 0, 0, 0),
    ];
    monolithium::sort_monoliths(&mut v);
    assert_eq!(v.len(), 4);
    assert_eq!((v[0].seed, v[0].minx), (1, -4));
    assert_eq!((v[1].seed, v[1].minx), (1, 4));
    assert_eq!((v[2].seed, v[2].area), (9, 16));
    assert_eq!((v[3].seed, v[3].area), (5, 64));
}
