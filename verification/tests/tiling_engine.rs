use poincare_tiling::frac::Frac;
use poincare_tiling::tiling::Tiling;

#[test]
fn tilable_configurations() {
    assert!(Tiling::new(4, 6, 1).is_tilable());
    assert!(Tiling::new(7, 3, 1).is_tilable());
    assert!(!Tiling::new(3, 3, 1).is_tilable());
    assert!(!Tiling::new(4, 3, 1).is_tilable());
}

#[test]
fn accessors_report_absence_before_compute() {
    let t = Tiling::new(4, 6, 1);
    assert!(t.shapes().is_none());
    assert!(t.geodesics().is_none());
    assert!(t.centers().is_none());
}

#[test]
fn getters_and_setters() {
    let mut t = Tiling::new(4, 6, 2);
    assert_eq!(t.p(), 4);
    assert_eq!(t.q(), 6);
    assert_eq!(t.max_depth(), 2);
    t.set_p(5);
    t.set_q(7);
    t.set_max_depth(3);
    assert_eq!(t.p(), 5);
    assert_eq!(t.q(), 7);
    assert_eq!(t.max_depth(), 3);
}

#[test]
fn square_tiling_depth_one_yields_five_shapes() {
    // {4, 6} with one recursion level: the seed square plus one
    // reflection per edge
    let mut t = Tiling::new(4, 6, 1);
    t.compute();
    assert_eq!(t.shapes().unwrap().len(), 5);
    assert_eq!(t.geodesics().unwrap().len(), 4);
    assert_eq!(t.centers().unwrap().len(), 5);
}

#[test]
fn seed_square_has_expected_vertices() {
    let mut t = Tiling::new(4, 6, 0);
    t.compute();
    let shapes = t.shapes().unwrap();
    assert_eq!(shapes.len(), 1);
    let seed = &shapes[0];
    assert_eq!(seed.len(), 4);
    let r = Frac::new(1, 2).unwrap();
    let zero = Frac::new(0, 1).unwrap();
    assert_eq!(seed[0].x, r);
    assert_eq!(seed[0].y, zero);
    assert_eq!(seed[1].x, zero);
    assert_eq!(seed[1].y, r);
    assert_eq!(seed[2].x, r.neg());
    assert_eq!(seed[2].y, zero);
    assert_eq!(seed[3].x, zero);
    assert_eq!(seed[3].y, r.neg());
}

#[test]
fn compute_is_idempotent() {
    let mut t = Tiling::new(4, 6, 2);
    t.compute();
    let shapes1 = t.shapes().unwrap().clone();
    let geos1 = t.geodesics().unwrap().clone();
    let centers1 = t.centers().unwrap().clone();
    t.compute();
    assert_eq!(*t.shapes().unwrap(), shapes1);
    assert_eq!(*t.geodesics().unwrap(), geos1);
    assert_eq!(*t.centers().unwrap(), centers1);
}

#[test]
fn shape_count_grows_with_depth_and_seed_is_stable() {
    let mut counts: Vec<usize> = Vec::new();
    let mut t = Tiling::new(4, 6, 0);
    t.compute();
    let seed = t.shapes().unwrap()[0].clone();
    counts.push(t.shapes().unwrap().len());
    for d in 1..4u8 {
        t.set_max_depth(d);
        t.compute();
        counts.push(t.shapes().unwrap().len());
        assert_eq!(t.shapes().unwrap()[0], seed);
    }
    assert_eq!(counts[0], 1);
    assert_eq!(counts[1], 5);
    assert!(counts[1] < counts[2]);
    assert!(counts[2] < counts[3]);
    // the first two levels of the {4, 6} tree are complete
    assert_eq!(counts[2], 21);
}

#[test]
fn changing_a_parameter_forces_a_rebuild() {
    let mut t = Tiling::new(4, 6, 1);
    t.compute();
    assert_eq!(t.shapes().unwrap().len(), 5);
    t.set_p(7);
    t.set_q(3);
    t.compute();
    // {7, 3} at depth one: the seed heptagon plus one shape per edge
    assert_eq!(t.shapes().unwrap().len(), 8);
    assert_eq!(t.geodesics().unwrap().len(), 7);
}

#[test]
fn non_tilable_configuration_computes_empty() {
    let mut t = Tiling::new(3, 3, 4);
    t.compute();
    assert!(!t.is_tilable());
    assert!(t.shapes().is_none());
    assert!(t.geodesics().is_none());
    assert!(t.centers().is_none());
}
