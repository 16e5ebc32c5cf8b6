//! Phases A and B of the simulation step: velocity advection (gas with a
//! non-zero velocity moves its pressure into the neighbouring cell its
//! velocity points at) and source injection (each gas source merges a unit
//! of pressure into the neighbour it is aimed at).

use vstd::prelude::*;

use crate::atom::{sum_gas, sum_gas_spec, Atom, AtomVariant, IVec3, V_MAX};
use crate::grid::{
    flat_idx, lemma_flat_idx_bounds, lemma_flat_of_pos, pos_x, pos_y, pos_z, vacuum_all,
    valid_size, Grid,
};
use crate::spread::spread_all;

verus! {

/// The fixed pressure a gas source merges into its neighbour on every step.
pub const SOURCE_PRES: u64 = 1;

/// Squared magnitude of a velocity vector.
pub open spec fn mag2(v: IVec3) -> int {
    v.x * v.x + v.y * v.y + v.z * v.z
}

/// The step a velocity takes along one axis: the integer the axis coordinate
/// of the cell's centre moves by when offset by the unit-normalised velocity
/// and floored. The component moves the cell exactly when it is at least
/// half the velocity's magnitude (biased toward the positive side, as
/// flooring is).
pub open spec fn axis_off(c: int, m: int) -> int {
    if c > 0 && 4 * (c * c) >= m {
        1
    } else if c < 0 && 4 * (c * c) > m {
        -1
    } else {
        0
    }
}

/// A non-zero velocity always moves its cell: on the axis with the largest
/// component magnitude, four times the squared component exceeds the
/// squared magnitude, so that axis steps. Together with the offsets being
/// -1, 0 or 1 on every axis, the advection destination is a face, edge or
/// corner neighbour, and never the source cell itself.
pub proof fn lemma_advect_moves(v: IVec3)
    requires
        v != IVec3::zero_spec(),
    ensures
        axis_off(v.x as int, mag2(v)) != 0 || axis_off(v.y as int, mag2(v)) != 0 || axis_off(
            v.z as int,
            mag2(v),
        ) != 0,
{
    let cx = v.x as int;
    let cy = v.y as int;
    let cz = v.z as int;
    let m = mag2(v);
    assert(m >= 1) by (nonlinear_arith)
        requires
            m == cx * cx + cy * cy + cz * cz,
            cx != 0 || cy != 0 || cz != 0,
    ;
    if cx * cx >= cy * cy && cx * cx >= cz * cz {
        assert(4 * (cx * cx) > m && cx != 0) by (nonlinear_arith)
            requires
                m == cx * cx + cy * cy + cz * cz,
                cx * cx >= cy * cy,
                cx * cx >= cz * cz,
                m >= 1,
        ;
    } else if cy * cy >= cx * cx && cy * cy >= cz * cz {
        assert(4 * (cy * cy) > m && cy != 0) by (nonlinear_arith)
            requires
                m == cx * cx + cy * cy + cz * cz,
                cy * cy >= cx * cx,
                cy * cy >= cz * cz,
                m >= 1,
        ;
    } else {
        assert(4 * (cz * cz) > m && cz != 0) by (nonlinear_arith)
            requires
                m == cx * cx + cy * cy + cz * cz,
                cz * cz >= cx * cx,
                cz * cz >= cy * cy,
                m >= 1,
        ;
    }
}

/// Processing of the single cell at flat index `i` by velocity advection:
/// a gas cell with non-zero velocity merges its (pressure, velocity) pair
/// into the destination cell if that is in bounds and holds gas, and is
/// itself reset to zero pressure and velocity in either case.
pub open spec fn advect_at(a: Seq<Atom>, s: int, i: int) -> Seq<Atom> {
    let atom = a[i];
    if atom.variant == AtomVariant::Gas && atom.vel != IVec3::zero_spec() {
        let m = mag2(atom.vel);
        let nx = pos_x(s, i) + axis_off(atom.vel.x as int, m);
        let ny = pos_y(s, i) + axis_off(atom.vel.y as int, m);
        let nz = pos_z(s, i) + axis_off(atom.vel.z as int, m);
        if 0 <= nx < s && 0 <= ny < s && 0 <= nz < s && a[flat_idx(s, nx, ny, nz)].variant
            == AtomVariant::Gas {
            a.update(flat_idx(s, nx, ny, nz), sum_gas_spec(a[flat_idx(s, nx, ny, nz)], atom))
                .update(i, Atom::gas_spec())
        } else {
            a.update(i, Atom::gas_spec())
        }
    } else {
        a
    }
}

/// Velocity advection applied to the first `n` cells, in flat index order.
pub open spec fn advect_upto(a: Seq<Atom>, s: int, n: nat) -> Seq<Atom>
    decreases n,
{
    if n == 0 {
        a
    } else {
        advect_at(advect_upto(a, s, (n - 1) as nat), s, n - 1)
    }
}

/// The contribution a gas source merges into its target: the fixed source
/// pressure, along the source's emission direction.
pub open spec fn source_atom(d: IVec3) -> Atom {
    Atom { variant: AtomVariant::Gas, pres: SOURCE_PRES, vel: d }
}

/// Processing of the single cell at flat index `i` by source injection: a
/// gas source merges the fixed source pressure and its direction into the
/// face neighbour it points at, if that neighbour is in bounds and holds
/// gas.
pub open spec fn inject_at(a: Seq<Atom>, s: int, i: int) -> Seq<Atom> {
    let atom = a[i];
    if atom.variant == AtomVariant::GasSource {
        let nx = pos_x(s, i) + atom.vel.x;
        let ny = pos_y(s, i) + atom.vel.y;
        let nz = pos_z(s, i) + atom.vel.z;
        if 0 <= nx < s && 0 <= ny < s && 0 <= nz < s && a[flat_idx(s, nx, ny, nz)].variant
            == AtomVariant::Gas {
            a.update(
                flat_idx(s, nx, ny, nz),
                sum_gas_spec(a[flat_idx(s, nx, ny, nz)], source_atom(atom.vel)),
            )
        } else {
            a
        }
    } else {
        a
    }
}

/// Source injection applied to the first `n` cells, in flat index order.
pub open spec fn inject_upto(a: Seq<Atom>, s: int, n: nat) -> Seq<Atom>
    decreases n,
{
    if n == 0 {
        a
    } else {
        inject_at(inject_upto(a, s, (n - 1) as nat), s, n - 1)
    }
}

/// The advection step along each axis for a whole velocity vector.
fn advect_offset(v: IVec3) -> (r: (i64, i64, i64))
    requires
        -V_MAX <= v.x <= V_MAX,
        -V_MAX <= v.y <= V_MAX,
        -V_MAX <= v.z <= V_MAX,
    ensures
        r.0 == axis_off(v.x as int, mag2(v)),
        r.1 == axis_off(v.y as int, mag2(v)),
        r.2 == axis_off(v.z as int, mag2(v)),
        -1 <= r.0 <= 1,
        -1 <= r.1 <= 1,
        -1 <= r.2 <= 1,
{
    proof {
        let b = V_MAX as int;
        assert(0 <= v.x * v.x <= b * b && 0 <= v.y * v.y <= b * b && 0 <= v.z * v.z <= b
            * b) by (nonlinear_arith)
            requires
                -b <= v.x <= b,
                -b <= v.y <= b,
                -b <= v.z <= b,
        ;
    }
    let sx = v.x * v.x;
    let sy = v.y * v.y;
    let sz = v.z * v.z;
    let m = sx + sy + sz;
    let ox: i64 = if v.x > 0 && 4 * sx >= m {
        1
    } else if v.x < 0 && 4 * sx > m {
        -1
    } else {
        0
    };
    let oy: i64 = if v.y > 0 && 4 * sy >= m {
        1
    } else if v.y < 0 && 4 * sy > m {
        -1
    } else {
        0
    };
    let oz: i64 = if v.z > 0 && 4 * sz >= m {
        1
    } else if v.z < 0 && 4 * sz > m {
        -1
    } else {
        0
    };
    (ox, oy, oz)
}

impl Grid {
    /// Phase A, velocity advection: every gas cell with a non-zero velocity
    /// merges its pressure and velocity into the neighbouring cell its
    /// velocity points at (if in bounds and gas), and is reset to zero
    /// pressure and velocity either way. Cells are processed in flat index
    /// order, in place.
    pub fn simulate_gas_velocity(&mut self)
        requires
            old(self).wf(),
        ensures
            final(self).wf(),
            final(self).size == old(self).size,
            final(self).step_counter == old(self).step_counter,
            final(self).atoms@ == advect_upto(
                old(self).atoms@,
                old(self).size as int,
                old(self).atoms@.len(),
            ),
    {
        let s = self.size;
        let ghost si = s as int;
        let n = self.atoms.len();
        let mut i: usize = 0;
        while i < n
            invariant
                si == s as int,
                self.wf(),
                self.size == s,
                s <= 64,
                self.step_counter == old(self).step_counter,
                n == self.atoms@.len(),
                n == old(self).atoms@.len(),
                n == s * s * s,
                0 <= i <= n,
                self.atoms@ == advect_upto(old(self).atoms@, si, i as nat),
            decreases n - i,
        {
            proof {
                assert(0 < s) by (nonlinear_arith)
                    requires
                        n == s * s * s,
                        0 <= i < n,
                ;
                assert(0 < s * s <= 4096) by (nonlinear_arith)
                    requires
                        0 < s <= 64,
                ;
                lemma_flat_of_pos(si, i as int);
            }
            let ghost prev = self.atoms@;
            let x = i / (s * s);
            let y = (i / s) % s;
            let z = i % s;
            let a = self.atoms[i];
            if a.variant == AtomVariant::Gas && (a.vel.x != 0 || a.vel.y != 0 || a.vel.z != 0) {
                let (ox, oy, oz) = advect_offset(a.vel);
                let nx = x as i64 + ox;
                let ny = y as i64 + oy;
                let nz = z as i64 + oz;
                if 0 <= nx && nx < s as i64 && 0 <= ny && ny < s as i64 && 0 <= nz && nz
                    < s as i64 {
                    proof {
                        lemma_flat_idx_bounds(si, nx as int, ny as int, nz as int);
                    }
                    let j = (nx as usize * s + ny as usize) * s + nz as usize;
                    if self.atoms[j].variant == AtomVariant::Gas {
                        let merged = sum_gas(&self.atoms[j], &a);
                        self.atoms.set(j, merged);
                    }
                }
                self.atoms.set(i, Atom::gas());
                proof {
                    assert(self.atoms@ =~= advect_at(prev, si, i as int));
                }
            } else {
                proof {
                    assert(self.atoms@ =~= advect_at(prev, si, i as int));
                }
            }
            i = i + 1;
        }
    }

    /// Phase B, source injection: every gas source merges the fixed source
    /// pressure, directed along its emission direction, into the face
    /// neighbour it points at, if that neighbour is in bounds and holds
    /// gas. Cells are processed in flat index order, in place.
    pub fn step_gas_source(&mut self)
        requires
            old(self).wf(),
        ensures
            final(self).wf(),
            final(self).size == old(self).size,
            final(self).step_counter == old(self).step_counter,
            final(self).atoms@ == inject_upto(
                old(self).atoms@,
                old(self).size as int,
                old(self).atoms@.len(),
            ),
    {
        let s = self.size;
        let ghost si = s as int;
        let n = self.atoms.len();
        let mut i: usize = 0;
        while i < n
            invariant
                si == s as int,
                self.wf(),
                self.size == s,
                s <= 64,
                self.step_counter == old(self).step_counter,
                n == self.atoms@.len(),
                n == old(self).atoms@.len(),
                n == s * s * s,
                0 <= i <= n,
                self.atoms@ == inject_upto(old(self).atoms@, si, i as nat),
            decreases n - i,
        {
            proof {
                assert(0 < s) by (nonlinear_arith)
                    requires
                        n == s * s * s,
                        0 <= i < n,
                ;
                assert(0 < s * s <= 4096) by (nonlinear_arith)
                    requires
                        0 < s <= 64,
                ;
                lemma_flat_of_pos(si, i as int);
            }
            let ghost prev = self.atoms@;
            let x = i / (s * s);
            let y = (i / s) % s;
            let z = i % s;
            let a = self.atoms[i];
            if a.variant == AtomVariant::GasSource {
                let nx = x as i64 + a.vel.x;
                let ny = y as i64 + a.vel.y;
                let nz = z as i64 + a.vel.z;
                if 0 <= nx && nx < s as i64 && 0 <= ny && ny < s as i64 && 0 <= nz && nz
                    < s as i64 {
                    proof {
                        lemma_flat_idx_bounds(si, nx as int, ny as int, nz as int);
                    }
                    let j = (nx as usize * s + ny as usize) * s + nz as usize;
                    if self.atoms[j].variant == AtomVariant::Gas {
                        let contribution = Atom {
                            variant: AtomVariant::Gas,
                            pres: SOURCE_PRES,
                            vel: a.vel,
                        };
                        let merged = sum_gas(&self.atoms[j], &contribution);
                        self.atoms.set(j, merged);
                    }
                }
            }
            proof {
                assert(self.atoms@ =~= inject_at(prev, si, i as int));
            }
            i = i + 1;
        }
    }
}

/// Does the spread pass run at all on a step with this counter? It does on
/// every multiple of the spread interval.
pub open spec fn spread_runs(counter: u64, interval: u64) -> bool {
    counter as int % interval as int == 0
}

/// Which checkerboard alignment the spread pass uses when it runs: 0 for
/// the even-aligned blocks, 1 for the odd-aligned ones; consecutive spread
/// passes alternate.
pub open spec fn spread_parity(counter: u64, interval: u64) -> int {
    (counter as int / interval as int) % 2
}

/// One full simulation step over the cell array: velocity advection, then
/// source injection, then (when the counter is a multiple of the spread
/// interval) the checkerboard spread of the alternating alignment, then the
/// edge vacuum.
pub open spec fn step_cells(a: Seq<Atom>, s: int, counter: u64, interval: u64) -> Seq<Atom> {
    let after_a = advect_upto(a, s, a.len());
    let after_b = inject_upto(after_a, s, after_a.len());
    let after_c = if spread_runs(counter, interval) {
        spread_all(after_b, s, spread_parity(counter, interval))
    } else {
        after_b
    };
    vacuum_all(after_c, s)
}

/// Checkerboard phase alternation: spread passes run exactly on the
/// multiples of the spread interval, and two consecutive spread passes use
/// the two different block alignments, so no cell's block is averaged by
/// both alignments on one step, and across two consecutive passes the grid
/// is tiled by the even-aligned and then the odd-aligned blocks (or the
/// other way around).
pub proof fn lemma_spread_phase_alternation(c: u64, v: u64)
    requires
        v >= 1,
        spread_runs(c, v),
        c + v <= u64::MAX,
    ensures
        spread_runs((c + v) as u64, v),
        forall|d: u64| c < d < c + v ==> !spread_runs(d, v),
        spread_parity(c, v) == 0 || spread_parity(c, v) == 1,
        spread_parity((c + v) as u64, v) != spread_parity(c, v),
{
    let ci = c as int;
    let vi = v as int;
    let q = ci / vi;
    vstd::arithmetic::div_mod::lemma_fundamental_div_mod(ci, vi);
    assert(ci == vi * q);
    assert(ci + vi == (q + 1) * vi + 0) by (nonlinear_arith)
        requires
            ci == vi * q,
    ;
    vstd::arithmetic::div_mod::lemma_fundamental_div_mod_converse_div(ci + vi, vi, q + 1, 0);
    vstd::arithmetic::div_mod::lemma_fundamental_div_mod_converse_mod(ci + vi, vi, q + 1, 0);
    assert forall|d: u64| c < d < c + v implies !spread_runs(d, v) by {
        vstd::arithmetic::div_mod::lemma_fundamental_div_mod_converse_mod(
            d as int,
            vi,
            q,
            d as int - ci,
        );
    }
    vstd::arithmetic::div_mod::lemma_fundamental_div_mod(q, 2);
    vstd::arithmetic::div_mod::lemma_mod_division_less_than_divisor(q, 2);
    if q % 2 == 0 {
        vstd::arithmetic::div_mod::lemma_fundamental_div_mod_converse_mod(q + 1, 2, q / 2, 1);
    } else {
        vstd::arithmetic::div_mod::lemma_fundamental_div_mod_converse_mod(q + 1, 2, q / 2 + 1, 0);
    }
    assert(0 <= q) by {
        vstd::arithmetic::div_mod::lemma_div_pos_is_pos(ci, vi);
    }
}

impl Grid {
    /// Advance the simulation by one discrete step: phase A (velocity
    /// advection), phase B (source injection), phase C (the checkerboard
    /// spread, on steps whose counter is a multiple of `spread_interval`,
    /// with the alignment alternating between spread passes), and phase D
    /// (the edge vacuum), in that fixed order; then the step counter
    /// advances by one, wrapping on overflow.
    pub fn step(&mut self, spread_interval: u64)
        requires
            old(self).wf(),
            valid_size(old(self).size as int),
            spread_interval >= 1,
        ensures
            final(self).wf(),
            final(self).size == old(self).size,
            final(self).step_counter == (if old(self).step_counter == u64::MAX {
                0u64
            } else {
                (old(self).step_counter + 1) as u64
            }),
            final(self).atoms@ == step_cells(
                old(self).atoms@,
                old(self).size as int,
                old(self).step_counter,
                spread_interval,
            ),
    {
        self.simulate_gas_velocity();
        self.step_gas_source();
        if self.step_counter % spread_interval == 0 {
            let odd = (self.step_counter / spread_interval) % 2 == 1;
            self.spread_gas(odd);
        }
        self.apply_edge_vacuum();
        if self.step_counter == u64::MAX {
            self.step_counter = 0;
        } else {
            self.step_counter = self.step_counter + 1;
        }
    }
}

} // verus!
