use lbm::boundary::{Condition, Handler, Type};
use lbm::collision::SingleRelaxationTime;
use lbm::error::ConfigError;
use lbm::geometry::Geometry;
use lbm::grid::StructuredGrid;
use lbm::solver::{gather, Physics, Solver};
use lbm::velocity::VelocitySet;

/// Single-relaxation-time physics over `f64`, with uniform initial fields.
struct Bgk {
    omega: f64,
    rho0: f64,
    ux0: f64,
    uy0: f64,
}

fn weight(vs: &VelocitySet, d: usize) -> f64 {
    vs.weights[d] as f64 / vs.weight_den as f64
}

fn equilibrium(vs: &VelocitySet, rho: f64, ux: f64, uy: f64) -> Vec<f64> {
    let u_sq = ux * ux + uy * uy;
    (0..vs.size())
        .map(|d| {
            let eu = vs.ex[d] as f64 * ux + vs.ey[d] as f64 * uy;
            weight(vs, d) * rho * (1.0 + 3.0 * eu + 4.5 * eu * eu - 1.5 * u_sq)
        })
        .collect()
}

impl Physics<f64> for Bgk {
    fn initial_populations(&self, grid: &StructuredGrid, vs: &VelocitySet) -> Vec<f64> {
        let n = grid.size();
        let eq = equilibrium(vs, self.rho0, self.ux0, self.uy0);
        let mut f = vec![0.0; n * vs.size()];
        for d in 0..vs.size() {
            for node in 0..n {
                f[d * n + node] = eq[d];
            }
        }
        f
    }

    fn collision(&mut self, f: &mut Vec<f64>, solid: &Vec<bool>, grid: &StructuredGrid, vs: &VelocitySet) {
        let n = grid.size();
        for node in 0..n {
            let (rho, ux, uy) = moments(vs, f, n, node);
            let (ux, uy) = if solid.get(node).copied().unwrap_or(false) { (0.0, 0.0) } else { (ux, uy) };
            let eq = equilibrium(vs, rho, ux, uy);
            for d in 0..vs.size() {
                let s = d * n + node;
                f[s] = self.omega * eq[d] + (1.0 - self.omega) * f[s];
            }
        }
    }
}

fn moments(vs: &VelocitySet, f: &[f64], n: usize, node: usize) -> (f64, f64, f64) {
    let mut rho = 0.0;
    let mut mx = 0.0;
    let mut my = 0.0;
    for d in 0..vs.size() {
        let v = f[d * n + node];
        rho += v;
        mx += v * vs.ex[d] as f64;
        my += v * vs.ey[d] as f64;
    }
    (rho, mx / rho, my / rho)
}

fn bgk(ux0: f64) -> Bgk {
    Bgk { omega: 1.2, rho0: 1.0, ux0, uy0: 0.0 }
}

#[test]
fn d2q9_moments_and_opposites() {
    let vs = VelocitySet::d2q9();
    assert_eq!(vs.size(), 9);
    assert_eq!(vs.weights.iter().sum::<u64>(), vs.weight_den);
    let mx: i64 = (0..9).map(|i| vs.weights[i] as i64 * vs.ex[i]).sum();
    let my: i64 = (0..9).map(|i| vs.weights[i] as i64 * vs.ey[i]).sum();
    assert_eq!((mx, my), (0, 0));
    for i in 0..9 {
        let o = vs.opposite[i];
        assert_eq!(vs.opposite[o], i);
        assert_eq!(vs.ex[o], -vs.ex[i]);
        assert_eq!(vs.ey[o], -vs.ey[i]);
        assert_eq!(vs.weights[o], vs.weights[i]);
    }
    assert_eq!((vs.c_squ_num, vs.c_squ_den), (1, 3));
}

#[test]
fn grid_rejects_zero_extent() {
    assert_eq!(StructuredGrid::new(0, 4, 1), Err(ConfigError::ZeroExtent));
    assert_eq!(StructuredGrid::new(4, 4, 0), Err(ConfigError::ZeroExtent));
}

#[test]
fn grid_rejects_overflowing_size() {
    assert_eq!(StructuredGrid::new(usize::MAX, 2, 1), Err(ConfigError::GridTooLarge));
    assert_eq!(StructuredGrid::new(usize::MAX / 2 + 1, 1, 2), Err(ConfigError::GridTooLarge));
}

#[test]
fn grid_size_and_flatten_round_trip() {
    let g = StructuredGrid::new(3, 4, 2).unwrap();
    assert_eq!(g.size(), 24);
    let s = g.flatten(7, 5, 9);
    assert_eq!(s, 5 * 24 + 7);
    assert_eq!(g.unflatten(s, 9), (7, 5));
    let idx = g.main_index(9);
    assert_eq!(idx, (0..216).collect::<Vec<usize>>());
}

#[test]
fn neighbors_wrap_periodically() {
    let vs = VelocitySet::d2q9();
    let g = StructuredGrid::new(4, 4, 1).unwrap();
    let nb = g.neighbors_index(&vs);
    assert_eq!(nb.len(), 144);
    // rest direction reads its own slot
    assert_eq!(nb[5], 5);
    // direction 1 moves +x: node (0, 0) is fed by (3, 0)
    assert_eq!(nb[16], 16 + 3);
    // direction 5 moves (+1, +1): node (0, 0) is fed by (3, 3)
    assert_eq!(nb[5 * 16], 5 * 16 + 15);
    // direction 3 moves -x: node (3, 2) is fed by (0, 2)
    assert_eq!(nb[3 * 16 + 11], 3 * 16 + 8);
}

#[test]
fn streaming_is_a_permutation() {
    let vs = VelocitySet::d2q9();
    let g = StructuredGrid::new(5, 3, 1).unwrap();
    let nb = g.neighbors_index(&vs);
    let mut sorted = nb.clone();
    sorted.sort();
    assert_eq!(sorted, (0..135).collect::<Vec<usize>>());
    let f: Vec<f64> = (0..135).map(|i| i as f64 * 0.5).collect();
    let mut streamed = gather(&f, &nb);
    streamed.sort_by(|a, b| a.partial_cmp(b).unwrap());
    assert_eq!(streamed, f);
}

#[test]
fn geometry_membership() {
    let c = Geometry::circle(5, 5, 2);
    assert!(c.contains(5, 7, 0));
    assert!(c.contains(6, 6, 3));
    assert!(!c.contains(7, 7, 0));
    assert!(!c.contains(0, 0, 0));
    let bottom = Geometry::plane((0, 1, 0), (0, 0, 0));
    assert!(bottom.contains(7, 0, 0));
    assert!(!bottom.contains(7, 1, 0));
    let top = Geometry::plane((0, -1, 0), (0, 9, 0));
    assert!(top.contains(3, 9, 0));
    assert!(!top.contains(3, 8, 0));
    let r = Geometry::Rect { x0: 0, y0: 1, x1: 0, y1: 8 };
    assert!(r.contains(0, 1, 0));
    assert!(r.contains(0, 8, 0));
    assert!(!r.contains(0, 0, 0));
    assert!(!r.contains(1, 4, 0));
}

#[test]
fn duplicate_label_is_rejected() {
    let vs = VelocitySet::d2q9();
    let g = StructuredGrid::new(4, 4, 1).unwrap();
    let mut h: Handler<f64> = Handler::new(g, &vs);
    let wall = Condition::new(Type::BounceBack, Geometry::plane((0, 1, 0), (0, 0, 0)));
    assert_eq!(h.add("wall".to_string(), wall), Ok(()));
    let again = Condition::new(Type::BounceBack, Geometry::plane((0, -1, 0), (0, 3, 0)));
    assert_eq!(h.add("wall".to_string(), again), Err(ConfigError::DuplicateLabel));
    assert_eq!(h.labels.len(), 1);
}

#[test]
fn inflow_profile_must_have_one_value_per_direction() {
    let vs = VelocitySet::d2q9();
    let g = StructuredGrid::new(4, 4, 1).unwrap();
    let mut h: Handler<f64> = Handler::new(g, &vs);
    let bad = Condition::new(Type::Inflow(vec![1.0; 8]), Geometry::plane((1, 0, 0), (0, 0, 0)));
    assert_eq!(h.add("in".to_string(), bad), Err(ConfigError::InvalidInflowProfile));
    assert_eq!(h.conditions.len(), 0);
}

#[test]
fn inflow_overlapping_wall_is_rejected() {
    let vs = VelocitySet::d2q9();
    let g = StructuredGrid::new(4, 4, 1).unwrap();
    let mut h: Handler<f64> = Handler::new(g, &vs);
    let wall = Condition::new(Type::BounceBack, Geometry::plane((0, 1, 0), (0, 0, 0)));
    let inflow = Condition::new(Type::Inflow(vec![0.0; 9]), Geometry::plane((1, 0, 0), (0, 0, 0)));
    h.add("bottom".to_string(), wall).unwrap();
    h.add("inflow".to_string(), inflow).unwrap();
    assert_eq!(h.update_bounceback_indices(&vs), Err(ConfigError::OverlappingBoundary { node: 0 }));
}

#[test]
fn solid_nodes_and_reflection_indices() {
    let vs = VelocitySet::d2q9();
    let g = StructuredGrid::new(4, 3, 1).unwrap();
    let mut h: Handler<f64> = Handler::new(g, &vs);
    let wall = Condition::new(Type::BounceBack, Geometry::plane((0, 1, 0), (0, 0, 0)));
    let inflow = Condition::new(Type::Inflow(vec![0.0; 9]), Geometry::Rect { x0: 0, y0: 2, x1: 0, y1: 2 });
    h.add("bottom".to_string(), wall).unwrap();
    h.add("inflow".to_string(), inflow).unwrap();
    assert_eq!(h.update_bounceback_indices(&vs), Ok(()));
    assert_eq!(h.solid, vec![true, true, true, true, false, false, false, false, false, false, false, false]);
    assert!(h.solid_boundary(3));
    assert!(!h.solid_boundary(8));
    assert_eq!(h.inflow[8], Some(1));
    assert_eq!(h.idx(8), Some(1));
    assert_eq!(h.idx(2), Some(0));
    assert_eq!(h.idx(5), None);
    assert_eq!(h.to_reflect.len(), 4 * 9);
    // node 1, direction 1 (+x): read at slot 1*12+1, written to direction 3
    assert_eq!(h.to_reflect[9 + 1], 12 + 1);
    assert_eq!(h.reflected[9 + 1], 3 * 12 + 1);
}

#[test]
fn apply_reflects_and_prescribes() {
    let vs = VelocitySet::d2q9();
    let g = StructuredGrid::new(2, 2, 1).unwrap();
    let mut h: Handler<f64> = Handler::new(g, &vs);
    let profile: Vec<f64> = (0..9).map(|d| 100.0 + d as f64).collect();
    h.add("wall".to_string(), Condition::new(Type::BounceBack, Geometry::Rect { x0: 0, y0: 0, x1: 0, y1: 0 }))
        .unwrap();
    h.add("in".to_string(), Condition::new(Type::Inflow(profile.clone()), Geometry::Rect { x0: 1, y0: 1, x1: 1, y1: 1 }))
        .unwrap();
    h.update_bounceback_indices(&vs).unwrap();
    let streamed: Vec<f64> = (0..36).map(|s| s as f64).collect();
    let mut f: Vec<f64> = (0..36).map(|s| -(s as f64)).collect();
    h.apply(&vs, &mut f, &streamed);
    for d in 0..9 {
        let o = vs.opposite[d];
        assert_eq!(f[d * 4], streamed[o * 4]);
        assert_eq!(f[d * 4 + 3], profile[d]);
        assert_eq!(f[d * 4 + 1], -((d * 4 + 1) as f64));
        assert_eq!(f[d * 4 + 2], -((d * 4 + 2) as f64));
    }
}

#[test]
fn relaxation_rate_stability_range() {
    assert_eq!(SingleRelaxationTime::new(0, 1), Err(ConfigError::UnstableRelaxation));
    assert_eq!(SingleRelaxationTime::new(2, 1), Err(ConfigError::UnstableRelaxation));
    assert_eq!(SingleRelaxationTime::new(5, 2), Err(ConfigError::UnstableRelaxation));
    assert_eq!(SingleRelaxationTime::new(1, 0), Err(ConfigError::UnstableRelaxation));
    assert_eq!(
        SingleRelaxationTime::new(19, 10),
        Ok(SingleRelaxationTime { omega_num: 19, omega_den: 10 })
    );
    assert!(SingleRelaxationTime::new(1, 1000).is_ok());
    let mut c = SingleRelaxationTime::new(1, 1).unwrap();
    assert_eq!(c.set_omega(4, 2), Err(ConfigError::UnstableRelaxation));
    assert_eq!(c, SingleRelaxationTime { omega_num: 1, omega_den: 1 });
    assert_eq!(c.set_omega(3, 2), Ok(()));
    assert_eq!(c.omega_num, 3);
}

#[test]
fn scenario_periodic_rest_state() {
    let vs = VelocitySet::d2q9();
    let g = StructuredGrid::new(4, 4, 1).unwrap();
    let mut h: Handler<f64> = Handler::new(g, &vs);
    h.update_bounceback_indices(&vs).unwrap();
    let mut s = Solver::new(vs, g, h, bgk(0.0));
    s.initialize();
    for d in 0..9 {
        let w = weight(&s.vs, d);
        for node in 0..16 {
            assert_eq!(s.f_ref()[d * 16 + node], w * 1.0);
        }
    }
    s.run();
    for node in 0..16 {
        let (rho, ux, uy) = moments(&s.vs, &s.f, 16, node);
        assert!((rho - 1.0).abs() < 1e-12);
        assert!(ux.abs() < 1e-12 && uy.abs() < 1e-12);
    }
}

#[test]
fn scenario_bounce_back_row() {
    let vs = VelocitySet::d2q9();
    let g = StructuredGrid::new(10, 10, 1).unwrap();
    let mut h: Handler<f64> = Handler::new(g, &vs);
    h.add("bottom".to_string(), Condition::new(Type::BounceBack, Geometry::plane((0, 1, 0), (0, 0, 0))))
        .unwrap();
    h.update_bounceback_indices(&vs).unwrap();
    let mut s = Solver::new(vs, g, h, bgk(0.05));
    s.initialize();
    s.run();
    s.run();
    for node in 0..10 {
        for d in 0..9 {
            let o = s.vs.opposite[d];
            assert_eq!(s.f[d * 100 + node], s.f_hlp[o * 100 + node]);
        }
    }
}

#[test]
fn scenario_inflow_overwrites() {
    let vs = VelocitySet::d2q9();
    let g = StructuredGrid::new(6, 5, 1).unwrap();
    let profile = equilibrium(&vs, 1.2, 0.05, 0.0);
    let mut h: Handler<f64> = Handler::new(g, &vs);
    h.add(
        "inflow".to_string(),
        Condition::new(Type::Inflow(profile.clone()), Geometry::plane((1, 0, 0), (0, 0, 0))),
    )
    .unwrap();
    h.update_bounceback_indices(&vs).unwrap();
    let mut s = Solver::new(vs, g, h, bgk(0.1));
    s.initialize();
    s.run();
    for iy in 0..5 {
        let node = iy * 6;
        for d in 0..9 {
            assert_eq!(s.f[d * 30 + node], profile[d]);
        }
    }
    let (rho, ux, _) = moments(&s.vs, &s.f, 30, 0);
    assert!((rho - 1.2).abs() < 1e-12);
    assert!((ux - 0.05).abs() < 1e-12);
}

#[test]
fn equilibrium_moments_round_trip() {
    let vs = VelocitySet::d2q9();
    let eq = equilibrium(&vs, 1.1, 0.03, -0.02);
    let (rho, ux, uy) = moments(&vs, &eq, 1, 0);
    assert!((rho - 1.1).abs() < 1e-12);
    assert!((ux - 0.03).abs() < 1e-12);
    assert!((uy + 0.02).abs() < 1e-12);
}

#[test]
fn mass_is_conserved_with_walls() {
    let vs = VelocitySet::d2q9();
    let g = StructuredGrid::new(8, 6, 1).unwrap();
    let mut h: Handler<f64> = Handler::new(g, &vs);
    h.add("bottom".to_string(), Condition::new(Type::BounceBack, Geometry::plane((0, 1, 0), (0, 0, 0))))
        .unwrap();
    h.add("top".to_string(), Condition::new(Type::BounceBack, Geometry::plane((0, -1, 0), (0, 5, 0))))
        .unwrap();
    h.update_bounceback_indices(&vs).unwrap();
    let mut s = Solver::new(vs, g, h, bgk(0.0));
    s.initialize();
    let before: f64 = s.f.iter().sum();
    for _ in 0..20 {
        s.run();
    }
    let after: f64 = s.f.iter().sum();
    assert!((before - after).abs() < 1e-9);
    for node in 0..8 {
        let (_, ux, uy) = moments(&s.vs, &s.f_hlp, 48, node);
        assert!(ux.abs() < 1e-12 && uy.abs() < 1e-12);
    }
}

fn d2q9_parts() -> (Vec<i64>, Vec<i64>, Vec<i64>, Vec<u64>) {
    (
        vec![0, 1, 0, -1, 0, 1, -1, -1, 1],
        vec![0, 0, 1, 0, -1, 1, 1, -1, -1],
        vec![0; 9],
        vec![16, 4, 4, 4, 4, 1, 1, 1, 1],
    )
}

#[test]
fn velocity_set_from_parts_matches_d2q9() {
    let (ex, ey, ez, w) = d2q9_parts();
    let vs = VelocitySet::new(ex, ey, ez, w, 36).unwrap();
    let reference = VelocitySet::d2q9();
    assert_eq!(vs.opposite, reference.opposite);
    assert_eq!(vs.weights, reference.weights);
    assert_eq!((vs.c_squ_num, vs.c_squ_den), (1, 3));
}

#[test]
fn velocity_set_three_dimensional() {
    let mut ex = vec![0i64];
    let mut ey = vec![0i64];
    let mut ez = vec![0i64];
    let mut w = vec![12u64];
    for x in -1i64..=1 {
        for y in -1i64..=1 {
            for z in -1i64..=1 {
                let m = x * x + y * y + z * z;
                if m == 1 || m == 2 {
                    ex.push(x);
                    ey.push(y);
                    ez.push(z);
                    w.push(if m == 1 { 2 } else { 1 });
                }
            }
        }
    }
    let vs = VelocitySet::new(ex, ey, ez, w, 36).unwrap();
    assert_eq!(vs.size(), 19);
    for i in 0..19 {
        let o = vs.opposite[i];
        assert_eq!(vs.opposite[o], i);
        assert_eq!((vs.ex[o], vs.ey[o], vs.ez[o]), (-vs.ex[i], -vs.ey[i], -vs.ez[i]));
    }
    let g = StructuredGrid::new(3, 3, 3).unwrap();
    let mut nb = g.neighbors_index(&vs);
    nb.sort();
    assert_eq!(nb, (0..19 * 27).collect::<Vec<usize>>());
}

#[test]
fn velocity_set_rejects_invalid_parts() {
    let (ex, ey, ez, w) = d2q9_parts();
    // weights that do not sum to one
    assert_eq!(VelocitySet::new(ex.clone(), ey.clone(), ez.clone(), w.clone(), 35).err(), Some(ConfigError::InvalidVelocitySet));
    // a velocity without its negation
    let mut ex2 = ex.clone();
    ex2[1] = 0;
    ex2[3] = 0;
    let mut ey2 = ey.clone();
    ey2[1] = 1;
    assert_eq!(VelocitySet::new(ex2, ey2, ez.clone(), w.clone(), 36).err(), Some(ConfigError::InvalidVelocitySet));
    // weights that are not symmetric under negation
    let mut w2 = w.clone();
    w2[1] = 5;
    w2[2] = 3;
    assert_eq!(VelocitySet::new(ex.clone(), ey.clone(), ez.clone(), w2, 36).err(), Some(ConfigError::InvalidVelocitySet));
    // a diagonal of magnitude sqrt 3
    let vs3 = VelocitySet::new(vec![0, 1, -1], vec![0, 1, -1], vec![0, 1, -1], vec![1, 1, 1], 3);
    assert_eq!(vs3.err(), Some(ConfigError::InvalidVelocitySet));
    // a repeated velocity
    let rep = VelocitySet::new(vec![0, 0], vec![0, 0], vec![0, 0], vec![1, 1], 2);
    assert_eq!(rep.err(), Some(ConfigError::InvalidVelocitySet));
    // no directions
    assert_eq!(VelocitySet::new(vec![], vec![], vec![], vec![], 1).err(), Some(ConfigError::InvalidVelocitySet));
}
