use voxelgas::atom::{sum_gas, Atom, AtomVariant, IVec3, UVec3, P_MAX, V_MAX};
use voxelgas::grid::Grid;

fn flat(s: usize, x: usize, y: usize, z: usize) -> usize {
    (x * s + y) * s + z
}

fn gas(p: u64, vx: i64, vy: i64, vz: i64) -> Atom {
    Atom { variant: AtomVariant::Gas, pres: p, vel: IVec3 { x: vx, y: vy, z: vz } }
}

fn all_gas_grid(s: usize) -> Grid {
    Grid { atoms: vec![gas(0, 0, 0, 0); s * s * s], size: s, step_counter: 0 }
}

#[test]
fn sum_gas_weighted_merge() {
    let a = gas(3, 1, 2, 3);
    let b = gas(5, -1, 0, 2);
    let r = sum_gas(&a, &b);
    assert_eq!(r.variant, AtomVariant::Gas);
    assert_eq!(r.pres, 8);
    assert_eq!(r.vel, IVec3 { x: 3 * 1 + 5 * (-1), y: 3 * 2 + 5 * 0, z: 3 * 3 + 5 * 2 });
    assert_eq!(r.vel, IVec3 { x: -2, y: 6, z: 19 });
}

#[test]
fn sum_gas_saturates_at_bounds() {
    let a = gas(P_MAX, V_MAX, 0, -V_MAX);
    let b = gas(P_MAX, V_MAX, 0, -V_MAX);
    let r = sum_gas(&a, &b);
    assert_eq!(r.pres, P_MAX);
    assert_eq!(r.vel.x, V_MAX);
    assert_eq!(r.vel.z, -V_MAX);
}

#[test]
fn fresh_grid_has_five_solid_anchors() {
    let g = Grid::fresh(16);
    assert_eq!(g.atoms.len(), 16 * 16 * 16);
    assert_eq!(g.step_counter, 0);
    let solid_at = [(1, 1, 1), (14, 1, 1), (1, 14, 1), (1, 1, 14), (14, 14, 14)];
    let mut solids = 0;
    for x in 0..16 {
        for y in 0..16 {
            for z in 0..16 {
                let a = g.atoms[flat(16, x, y, z)];
                if solid_at.contains(&(x, y, z)) {
                    assert_eq!(a.variant, AtomVariant::Solid);
                    solids += 1;
                } else {
                    assert_eq!(a.variant, AtomVariant::Gas);
                    assert_eq!(a.pres, 0);
                }
            }
        }
    }
    assert_eq!(solids, 5);
}

#[test]
fn positions_cover_grid_in_order() {
    let g = all_gas_grid(4);
    let ps = g.positions();
    assert_eq!(ps.len(), 64);
    assert_eq!(ps[0], UVec3 { x: 0, y: 0, z: 0 });
    assert_eq!(ps[1], UVec3 { x: 0, y: 0, z: 1 });
    assert_eq!(ps[4], UVec3 { x: 0, y: 1, z: 0 });
    assert_eq!(ps[16], UVec3 { x: 1, y: 0, z: 0 });
    assert_eq!(ps[63], UVec3 { x: 3, y: 3, z: 3 });
    for (k, p) in ps.iter().enumerate() {
        assert_eq!(flat(4, p.x, p.y, p.z), k);
    }
}

#[test]
fn edge_vacuum_clears_boundary_and_is_idempotent() {
    let s = 4;
    let mut g = all_gas_grid(s);
    for i in 0..g.atoms.len() {
        g.atoms[i] = gas(7, 1, -1, 2);
    }
    g.atoms[flat(s, 0, 0, 0)] = Atom::solid();
    g.apply_edge_vacuum();
    for x in 0..s {
        for y in 0..s {
            for z in 0..s {
                let a = g.atoms[flat(s, x, y, z)];
                let boundary =
                    x == 0 || x == s - 1 || y == 0 || y == s - 1 || z == 0 || z == s - 1;
                if boundary {
                    assert_eq!(a.variant, AtomVariant::Gas);
                    assert_eq!(a.pres, 0);
                    assert_eq!(a.vel, IVec3 { x: 0, y: 0, z: 0 });
                } else {
                    assert_eq!(a, gas(7, 1, -1, 2));
                }
            }
        }
    }
    let before = g.atoms.clone();
    g.apply_edge_vacuum();
    assert_eq!(g.atoms, before);
}

#[test]
fn spread_even_block_averages_gas_cells() {
    let s = 4;
    let mut g = all_gas_grid(s);
    // pressures 1..8 in the even-aligned block at the origin: sum 36
    let mut p = 1;
    for x in 0..2 {
        for y in 0..2 {
            for z in 0..2 {
                g.atoms[flat(s, x, y, z)] = gas(p, 0, 0, 0);
                p += 1;
            }
        }
    }
    g.spread_gas(false);
    for x in 0..2 {
        for y in 0..2 {
            for z in 0..2 {
                assert_eq!(g.atoms[flat(s, x, y, z)].pres, 36 / 8);
            }
        }
    }
    // total in the block is the average times the count
    let total: u64 = (0..2)
        .flat_map(|x| (0..2).flat_map(move |y| (0..2).map(move |z| (x, y, z))))
        .map(|(x, y, z)| g.atoms[flat(s, x, y, z)].pres)
        .sum();
    assert_eq!(total, 8 * (36 / 8));
}

#[test]
fn spread_skips_solid_and_source_cells() {
    let s = 4;
    let mut g = all_gas_grid(s);
    g.atoms[flat(s, 0, 0, 0)] = Atom::solid();
    g.atoms[flat(s, 0, 0, 1)] = Atom::gas_source(IVec3 { x: 1, y: 0, z: 0 });
    // six gas cells remain in the block, holding 12 in total
    g.atoms[flat(s, 0, 1, 0)] = gas(9, 0, 0, 0);
    g.atoms[flat(s, 0, 1, 1)] = gas(3, 0, 0, 0);
    g.spread_gas(false);
    assert_eq!(g.atoms[flat(s, 0, 0, 0)].variant, AtomVariant::Solid);
    assert_eq!(g.atoms[flat(s, 0, 0, 1)].variant, AtomVariant::GasSource);
    for (x, y, z) in [(0, 1, 0), (0, 1, 1), (1, 0, 0), (1, 0, 1), (1, 1, 0), (1, 1, 1)] {
        assert_eq!(g.atoms[flat(s, x, y, z)].pres, 12 / 6);
    }
}

#[test]
fn spread_block_with_four_gas_members_splits_evenly() {
    let s = 4;
    let mut g = all_gas_grid(s);
    // four of the block's cells are solid, so 8 units over 4 gas members
    // gives each exactly 2
    for (x, y, z) in [(0, 0, 0), (0, 1, 1), (1, 0, 1), (1, 1, 0)] {
        g.atoms[flat(s, x, y, z)] = Atom::solid();
    }
    g.atoms[flat(s, 1, 1, 1)] = gas(8, 0, 0, 0);
    g.spread_gas(false);
    for (x, y, z) in [(0, 0, 1), (0, 1, 0), (1, 0, 0), (1, 1, 1)] {
        assert_eq!(g.atoms[flat(s, x, y, z)], gas(2, 0, 0, 0));
    }
    // cells outside the block are untouched
    assert_eq!(g.atoms[flat(s, 2, 2, 2)], gas(0, 0, 0, 0));
}

#[test]
fn spread_odd_phase_leaves_boundary_untouched() {
    let s = 4;
    let mut g = all_gas_grid(s);
    g.atoms[flat(s, 0, 2, 2)] = gas(5, 0, 0, 0);
    g.atoms[flat(s, 1, 1, 1)] = gas(8, 0, 0, 0);
    g.spread_gas(true);
    // the boundary cell is in no odd-aligned block
    assert_eq!(g.atoms[flat(s, 0, 2, 2)].pres, 5);
    // the interior block at (1,1,1) was averaged: 8 over 8 cells
    for x in 1..3 {
        for y in 1..3 {
            for z in 1..3 {
                assert_eq!(g.atoms[flat(s, x, y, z)].pres, 1);
            }
        }
    }
}

#[test]
fn advection_moves_gas_along_velocity() {
    let s = 6;
    let mut g = all_gas_grid(s);
    g.atoms[flat(s, 2, 2, 2)] = gas(5, -1, 0, 0);
    g.simulate_gas_velocity();
    assert_eq!(g.atoms[flat(s, 2, 2, 2)], gas(0, 0, 0, 0));
    // merged into (1,2,2): pressure 5, velocity the source's times its pressure
    assert_eq!(g.atoms[flat(s, 1, 2, 2)].pres, 5);
    assert_eq!(g.atoms[flat(s, 1, 2, 2)].vel, IVec3 { x: -5, y: 0, z: 0 });
}

#[test]
fn advection_cascades_through_later_cells() {
    // cells are processed in place in flat index order, so gas moved into a
    // cell the pass has not reached yet moves again on the same pass: a +x
    // velocity drains the gas through the boundary within one pass
    let s = 6;
    let mut g = all_gas_grid(s);
    g.atoms[flat(s, 2, 2, 2)] = gas(5, 1, 0, 0);
    g.simulate_gas_velocity();
    let total: u64 = g.atoms.iter().map(|a| a.pres).sum();
    assert_eq!(total, 0);
}

#[test]
fn advection_into_solid_loses_the_gas() {
    let s = 6;
    let mut g = all_gas_grid(s);
    g.atoms[flat(s, 2, 2, 2)] = gas(5, 0, -1, 0);
    g.atoms[flat(s, 2, 1, 2)] = Atom::solid();
    g.simulate_gas_velocity();
    assert_eq!(g.atoms[flat(s, 2, 2, 2)], gas(0, 0, 0, 0));
    assert_eq!(g.atoms[flat(s, 2, 1, 2)].variant, AtomVariant::Solid);
    assert_eq!(g.atoms[flat(s, 2, 1, 2)].pres, 0);
}

#[test]
fn advection_steps_each_sufficient_axis() {
    let s = 6;
    let mut g = all_gas_grid(s);
    // velocity (-3, -4, 0), squared magnitude 25: both components reach
    // half the magnitude (4*9 > 25 and 4*16 > 25), so the move is diagonal
    g.atoms[flat(s, 2, 2, 2)] = gas(2, -3, -4, 0);
    g.simulate_gas_velocity();
    assert_eq!(g.atoms[flat(s, 2, 2, 2)], gas(0, 0, 0, 0));
    assert_eq!(g.atoms[flat(s, 1, 1, 2)].pres, 2);
    assert_eq!(g.atoms[flat(s, 1, 1, 2)].vel, IVec3 { x: -6, y: -8, z: 0 });
}

#[test]
fn advection_picks_dominant_axis_only() {
    let s = 6;
    let mut g = all_gas_grid(s);
    // velocity (1, -4, 0), squared magnitude 17: only the y component
    // reaches half the magnitude (4*1 < 17, 4*16 > 17)
    g.atoms[flat(s, 2, 2, 2)] = gas(2, 1, -4, 0);
    g.simulate_gas_velocity();
    assert_eq!(g.atoms[flat(s, 2, 1, 2)].pres, 2);
    assert_eq!(g.atoms[flat(s, 2, 1, 2)].vel, IVec3 { x: 2, y: -8, z: 0 });
}

#[test]
fn source_injects_into_gas_neighbour() {
    let s = 6;
    let mut g = all_gas_grid(s);
    g.atoms[flat(s, 2, 2, 2)] = Atom::gas_source(IVec3 { x: 1, y: 0, z: 0 });
    g.step_gas_source();
    let target = g.atoms[flat(s, 3, 2, 2)];
    assert_eq!(target.variant, AtomVariant::Gas);
    assert_eq!(target.pres, 1);
    assert_eq!(target.vel, IVec3 { x: 1, y: 0, z: 0 });
    // the source cell itself is untouched
    assert_eq!(g.atoms[flat(s, 2, 2, 2)].variant, AtomVariant::GasSource);
}

#[test]
fn scenario_block_spread_in_one_step() {
    // a 4x4x4 grid, all gas at pressure 0, with cell (1,1,1) at pressure 8:
    // one step on the even-aligned phase averages the 2x2x2 block at the
    // origin, giving each of its eight gas cells pressure 1; the final edge
    // vacuum then clears the seven of them on the boundary.
    let s = 4;
    let mut g = all_gas_grid(s);
    g.atoms[flat(s, 1, 1, 1)] = gas(8, 0, 0, 0);
    g.step(1);
    assert_eq!(g.step_counter, 1);
    assert_eq!(g.atoms[flat(s, 1, 1, 1)].pres, 1);
    for x in 0..s {
        for y in 0..s {
            for z in 0..s {
                if (x, y, z) != (1, 1, 1) {
                    assert_eq!(g.atoms[flat(s, x, y, z)].pres, 0);
                }
            }
        }
    }
}

#[test]
fn scenario_source_fills_neighbour_in_one_step() {
    // a gas source at (2,2,2) aimed at (3,2,2): after one step on which the
    // spread pass does not run, the neighbour holds exactly the fixed
    // source pressure 1 and the direction vector scaled by it.
    let s = 6;
    let mut g = all_gas_grid(s);
    g.atoms[flat(s, 2, 2, 2)] = Atom::gas_source(IVec3 { x: 1, y: 0, z: 0 });
    g.step_counter = 1;
    g.step(2);
    assert_eq!(g.step_counter, 2);
    let target = g.atoms[flat(s, 3, 2, 2)];
    assert_eq!(target.variant, AtomVariant::Gas);
    assert_eq!(target.pres, 1);
    assert_eq!(target.vel, IVec3 { x: 1, y: 0, z: 0 });
}

#[test]
fn step_alternates_spread_phases() {
    // with spread interval 1, the first step averages even-aligned blocks
    // (the corner block shares its pressure), the second odd-aligned ones.
    let s = 6;
    let mut g = all_gas_grid(s);
    g.atoms[flat(s, 1, 1, 1)] = gas(80, 0, 0, 0);
    g.step(1);
    // even pass: block (0..2)^3 averaged to 10 each; vacuum clears all of
    // it except (1,1,1)
    assert_eq!(g.atoms[flat(s, 1, 1, 1)].pres, 10);
    g.step(1);
    // odd pass: block (1..3)^3 averages the remaining 10 to 1 each; all its
    // cells are interior, so the vacuum leaves them alone
    for x in 1..3 {
        for y in 1..3 {
            for z in 1..3 {
                assert_eq!(g.atoms[flat(s, x, y, z)].pres, 1);
            }
        }
    }
}
