//! The voxel grid: a dense cubic array of atoms indexed `[x][y][z]`, plus a
//! step counter that drives the checkerboard phase of the diffusion step.

use vstd::arithmetic::div_mod::{
    lemma_fundamental_div_mod, lemma_fundamental_div_mod_converse_div,
    lemma_fundamental_div_mod_converse_mod, lemma_mod_division_less_than_divisor,
};
use vstd::prelude::*;

use crate::atom::{wf_atom, Atom, AtomVariant, IVec3, UVec3};

verus! {

/// Grid sides the simulation supports: small even cubes.
pub open spec fn valid_size(s: int) -> bool {
    4 <= s <= 64 && s % 2 == 0
}

/// Index of position `(x, y, z)` in the flat cell array: x outer, y middle,
/// z inner.
pub open spec fn flat_idx(s: int, x: int, y: int, z: int) -> int {
    (x * s + y) * s + z
}

/// Position of flat index `i`, inverse of `flat_idx`.
pub open spec fn pos_x(s: int, i: int) -> int {
    i / (s * s)
}

pub open spec fn pos_y(s: int, i: int) -> int {
    (i / s) % s
}

pub open spec fn pos_z(s: int, i: int) -> int {
    i % s
}

/// A dense cubic grid of atoms.
pub struct Grid {
    pub atoms: Vec<Atom>,
    pub size: usize,
    pub step_counter: u64,
}

impl Grid {
    /// Well-formedness: a supported (or empty) side, a fully allocated cell
    /// array, and every cell well formed.
    pub open spec fn wf(&self) -> bool {
        &&& (self.size == 0 || valid_size(self.size as int))
        &&& self.atoms@.len() == self.size * self.size * self.size
        &&& forall|i: int| 0 <= i < self.atoms@.len() ==> wf_atom(self.atoms@[i])
    }

    pub open spec fn in_bounds(&self, p: UVec3) -> bool {
        p.x < self.size && p.y < self.size && p.z < self.size
    }

    pub open spec fn idx_of(&self, p: UVec3) -> int {
        flat_idx(self.size as int, p.x as int, p.y as int, p.z as int)
    }

    /// An empty grid; cells are only allocated by the constructors that take
    /// a side, or by loading saved data.
    pub fn new() -> (r: Grid)
        ensures
            r.wf(),
            r.size == 0,
            r.atoms@.len() == 0,
            r.step_counter == 0,
    {
        Grid { atoms: Vec::new(), size: 0, step_counter: 0 }
    }

    /// The cell at `p`.
    pub fn at(&self, p: UVec3) -> (r: &Atom)
        requires
            self.wf(),
            self.in_bounds(p),
        ensures
            *r == self.atoms@[self.idx_of(p)],
    {
        proof {
            lemma_flat_idx_bounds(self.size as int, p.x as int, p.y as int, p.z as int);
        }
        let i = (p.x * self.size + p.y) * self.size + p.z;
        &self.atoms[i]
    }

    /// Overwrite the cell at `p`.
    pub fn set_at(&mut self, p: UVec3, a: Atom)
        requires
            old(self).wf(),
            old(self).in_bounds(p),
            wf_atom(a),
        ensures
            final(self).wf(),
            final(self).size == old(self).size,
            final(self).step_counter == old(self).step_counter,
            final(self).atoms@ == old(self).atoms@.update(old(self).idx_of(p), a),
    {
        proof {
            lemma_flat_idx_bounds(self.size as int, p.x as int, p.y as int, p.z as int);
        }
        let i = (p.x * self.size + p.y) * self.size + p.z;
        self.atoms.set(i, a);
    }
}

/// A position within bounds has its flat index within the cell array, and
/// the index arithmetic does not overflow.
pub proof fn lemma_flat_idx_bounds(s: int, x: int, y: int, z: int)
    requires
        0 < s <= 64,
        0 <= x < s,
        0 <= y < s,
        0 <= z < s,
    ensures
        0 <= x * s + y < s * s,
        0 <= flat_idx(s, x, y, z) < s * s * s,
        flat_idx(s, x, y, z) == (x * s + y) * s + z,
        x * s + y <= 4096,
        (x * s + y) * s + z <= 262144,
        s * s * s <= 262144,
{
    assert(0 <= x * s + y < s * s && 0 <= (x * s + y) * s + z < s * s * s && s * s * s
        <= 262144 && x * s + y <= 4096 && (x * s + y) * s + z <= 262144) by (nonlinear_arith)
        requires
            0 < s <= 64,
            0 <= x < s,
            0 <= y < s,
            0 <= z < s,
    ;
}

/// `pos_x`, `pos_y`, `pos_z` invert `flat_idx`.
pub proof fn lemma_pos_of_flat(s: int, x: int, y: int, z: int)
    requires
        0 < s,
        0 <= x < s,
        0 <= y < s,
        0 <= z < s,
    ensures
        pos_x(s, flat_idx(s, x, y, z)) == x,
        pos_y(s, flat_idx(s, x, y, z)) == y,
        pos_z(s, flat_idx(s, x, y, z)) == z,
{
    let i = flat_idx(s, x, y, z);
    assert((x * s + y) * s + z == x * (s * s) + (y * s + z) && 0 <= y * s + z < s
        * s) by (nonlinear_arith)
        requires
            0 < s,
            0 <= x < s,
            0 <= y < s,
            0 <= z < s,
    ;
    assert(i == x * (s * s) + (y * s + z));
    lemma_fundamental_div_mod_converse_div(i, s * s, x, y * s + z);
    assert(i == (x * s + y) * s + z);
    lemma_fundamental_div_mod_converse_div(i, s, x * s + y, z);
    lemma_fundamental_div_mod_converse_mod(i, s, x * s + y, z);
    lemma_fundamental_div_mod_converse_mod(x * s + y, s, x, y);
}

/// `flat_idx` inverts the position of a flat index, and that position is in
/// bounds.
pub proof fn lemma_flat_of_pos(s: int, i: int)
    requires
        0 < s,
        0 <= i < s * s * s,
    ensures
        0 <= pos_x(s, i) < s,
        0 <= pos_y(s, i) < s,
        0 <= pos_z(s, i) < s,
        flat_idx(s, pos_x(s, i), pos_y(s, i), pos_z(s, i)) == i,
{
    let x = i / (s * s);
    let r = i % (s * s);
    assert(0 < s * s) by (nonlinear_arith)
        requires
            0 < s,
    ;
    lemma_fundamental_div_mod(i, s * s);
    lemma_mod_division_less_than_divisor(i, s * s);
    assert(0 <= x < s) by (nonlinear_arith)
        requires
            0 < s,
            0 <= i < s * s * s,
            i == (s * s) * x + r,
            0 <= r < s * s,
    ;
    let y = r / s;
    let z = r % s;
    lemma_fundamental_div_mod(r, s);
    lemma_mod_division_less_than_divisor(r, s);
    assert(0 <= y < s) by (nonlinear_arith)
        requires
            0 < s,
            0 <= r < s * s,
            r == s * y + z,
            0 <= z < s,
    ;
    assert(i == (x * s + y) * s + z) by (nonlinear_arith)
        requires
            i == (s * s) * x + r,
            r == s * y + z,
    ;
    lemma_fundamental_div_mod_converse_div(i, s, x * s + y, z);
    lemma_fundamental_div_mod_converse_mod(i, s, x * s + y, z);
    lemma_fundamental_div_mod_converse_mod(x * s + y, s, x, y);
    assert(pos_z(s, i) == z);
    assert(i / s == x * s + y);
    assert(pos_y(s, i) == y);
    assert(pos_x(s, i) == x) by {
        assert(i == x * (s * s) + r) by (nonlinear_arith)
            requires
                i == (s * s) * x + r,
        ;
        lemma_fundamental_div_mod_converse_div(i, s * s, x, r);
    }
}

impl Grid {
    /// Every valid position, exactly once, in a fixed nested-axis order:
    /// x outer, y middle, z inner. Entry `k` sits at flat index `k`, so no
    /// two entries coincide.
    pub fn positions(&self) -> (r: Vec<UVec3>)
        requires
            self.wf(),
        ensures
            r@.len() == self.size * self.size * self.size,
            forall|k: int|
                0 <= k < r@.len() ==> #[trigger] r@[k] == (UVec3 {
                    x: pos_x(self.size as int, k) as usize,
                    y: pos_y(self.size as int, k) as usize,
                    z: pos_z(self.size as int, k) as usize,
                }),
            forall|k: int|
                0 <= k < r@.len() ==> self.in_bounds(#[trigger] r@[k]) && self.idx_of(r@[k]) == k,
    {
        let s = self.size;
        let ghost si = s as int;
        let mut r: Vec<UVec3> = Vec::new();
        let mut x: usize = 0;
        while x < s
            invariant
                si == s as int,
                0 <= x <= s,
                s <= 64,
                r@.len() == x * si * si,
                forall|k: int|
                    0 <= k < r@.len() ==> #[trigger] r@[k] == (UVec3 {
                        x: pos_x(si, k) as usize,
                        y: pos_y(si, k) as usize,
                        z: pos_z(si, k) as usize,
                    }),
            decreases s - x,
        {
            let mut y: usize = 0;
            while y < s
                invariant
                    si == s as int,
                    0 <= x < s,
                    0 <= y <= s,
                    s <= 64,
                    r@.len() == x * si * si + y * si,
                    forall|k: int|
                        0 <= k < r@.len() ==> #[trigger] r@[k] == (UVec3 {
                            x: pos_x(si, k) as usize,
                            y: pos_y(si, k) as usize,
                            z: pos_z(si, k) as usize,
                        }),
                decreases s - y,
            {
                let mut z: usize = 0;
                while z < s
                    invariant
                        si == s as int,
                        0 <= x < s,
                        0 <= y < s,
                        0 <= z <= s,
                        s <= 64,
                        r@.len() == x * si * si + y * si + z,
                        forall|k: int|
                            0 <= k < r@.len() ==> #[trigger] r@[k] == (UVec3 {
                                x: pos_x(si, k) as usize,
                                y: pos_y(si, k) as usize,
                                z: pos_z(si, k) as usize,
                            }),
                    decreases s - z,
                {
                    proof {
                        lemma_flat_idx_bounds(si, x as int, y as int, z as int);
                        lemma_pos_of_flat(si, x as int, y as int, z as int);
                        assert(flat_idx(si, x as int, y as int, z as int) == x * si * si + y * si
                            + z) by (nonlinear_arith);
                    }
                    r.push(UVec3 { x, y, z });
                    z = z + 1;
                }
                y = y + 1;
                proof {
                    assert(x * si * si + (y - 1) * si + si == x * si * si + y * si) by (nonlinear_arith);
                }
            }
            x = x + 1;
            proof {
                assert((x - 1) * si * si + si * si == x * si * si) by (nonlinear_arith);
            }
        }
        proof {
            assert(forall|k: int|
                0 <= k < r@.len() ==> self.in_bounds(#[trigger] r@[k]) && self.idx_of(r@[k])
                    == k) by {
                assert forall|k: int| 0 <= k < r@.len() implies self.in_bounds(#[trigger] r@[k])
                    && self.idx_of(r@[k]) == k by {
                    lemma_flat_of_pos(si, k);
                }
            }
        }
        r
    }
}

/// Is flat index `i` one of the five inset diagonal corner cells that a
/// fresh grid seeds with solids?
pub open spec fn is_seed_solid(s: int, i: int) -> bool {
    ||| i == flat_idx(s, 1, 1, 1)
    ||| i == flat_idx(s, s - 2, 1, 1)
    ||| i == flat_idx(s, 1, s - 2, 1)
    ||| i == flat_idx(s, 1, 1, s - 2)
    ||| i == flat_idx(s, s - 2, s - 2, s - 2)
}

impl Grid {
    /// A freshly constructed default grid of side `size`: every cell a gas
    /// with zero pressure and velocity, except five inset diagonal corner
    /// cells set to solid anchors.
    pub fn fresh(size: usize) -> (r: Grid)
        requires
            valid_size(size as int),
        ensures
            r.wf(),
            r.size == size,
            r.step_counter == 0,
            r.atoms@.len() == size * size * size,
            forall|i: int|
                0 <= i < r.atoms@.len() ==> #[trigger] r.atoms@[i] == (if is_seed_solid(
                    size as int,
                    i,
                ) {
                    Atom { variant: AtomVariant::Solid, pres: 0, vel: IVec3::zero_spec() }
                } else {
                    Atom::gas_spec()
                }),
    {
        let ghost si = size as int;
        proof {
            lemma_flat_idx_bounds(si, 1, 1, 1);
            assert(0 < si * si <= 4096 && 0 < (si * si) * si <= 262144 && (si * si) * si == si * si
                * si) by (nonlinear_arith)
                requires
                    0 < si <= 64,
            ;
        }
        let n = (size * size) * size;
        let mut atoms: Vec<Atom> = Vec::new();
        let mut i: usize = 0;
        while i < n
            invariant
                0 <= i <= n,
                atoms@.len() == i,
                forall|j: int| 0 <= j < i ==> #[trigger] atoms@[j] == Atom::gas_spec(),
            decreases n - i,
        {
            atoms.push(Atom::gas());
            i = i + 1;
        }
        let mut r = Grid { atoms, size, step_counter: 0 };
        proof {
            lemma_flat_idx_bounds(si, si - 2, 1, 1);
            lemma_flat_idx_bounds(si, 1, si - 2, 1);
            lemma_flat_idx_bounds(si, 1, 1, si - 2);
            lemma_flat_idx_bounds(si, si - 2, si - 2, si - 2);
        }
        let e = size - 2;
        r.set_at(UVec3 { x: 1, y: 1, z: 1 }, Atom::solid());
        r.set_at(UVec3 { x: e, y: 1, z: 1 }, Atom::solid());
        r.set_at(UVec3 { x: 1, y: e, z: 1 }, Atom::solid());
        r.set_at(UVec3 { x: 1, y: 1, z: e }, Atom::solid());
        r.set_at(UVec3 { x: e, y: e, z: e }, Atom::solid());
        r
    }
}

/// Does the cell at flat index `i` lie on the grid's outer shell: at least
/// one coordinate equal to 0 or `s - 1`?
pub open spec fn is_boundary(s: int, i: int) -> bool {
    ||| pos_x(s, i) == 0
    ||| pos_x(s, i) == s - 1
    ||| pos_y(s, i) == 0
    ||| pos_y(s, i) == s - 1
    ||| pos_z(s, i) == 0
    ||| pos_z(s, i) == s - 1
}

/// The grid after the edge vacuum: every boundary cell reset to a gas cell
/// with zero pressure and zero velocity, interior cells untouched.
pub open spec fn vacuum_all(a: Seq<Atom>, s: int) -> Seq<Atom> {
    Seq::new(a.len(), |i: int| if is_boundary(s, i) { Atom::gas_spec() } else { a[i] })
}

/// Resetting the boundary twice is the same as resetting it once.
pub proof fn lemma_vacuum_idempotent(a: Seq<Atom>, s: int)
    ensures
        vacuum_all(vacuum_all(a, s), s) == vacuum_all(a, s),
{
    assert(vacuum_all(vacuum_all(a, s), s) =~= vacuum_all(a, s));
}

/// After the edge vacuum, every cell with at least one coordinate equal to
/// 0 or `s - 1` holds a gas cell with zero pressure and zero velocity.
pub proof fn lemma_vacuum_clears_boundary(a: Seq<Atom>, s: int)
    ensures
        forall|i: int|
            0 <= i < a.len() && is_boundary(s, i) ==> #[trigger] vacuum_all(a, s)[i]
                == Atom::gas_spec(),
        forall|i: int|
            0 <= i < a.len() && !is_boundary(s, i) ==> #[trigger] vacuum_all(a, s)[i] == a[i],
{
}

impl Grid {
    /// Reset the grid's outer shell, simulating an open boundary that vents
    /// all pressure reaching it: every cell with a coordinate equal to 0 or
    /// `size - 1` becomes a zero gas cell.
    pub fn apply_edge_vacuum(&mut self)
        requires
            old(self).wf(),
        ensures
            final(self).wf(),
            final(self).size == old(self).size,
            final(self).step_counter == old(self).step_counter,
            final(self).atoms@ == vacuum_all(old(self).atoms@, old(self).size as int),
    {
        let s = self.size;
        let ghost si = s as int;
        let n = self.atoms.len();
        let mut i: usize = 0;
        while i < n
            invariant
                si == s as int,
                self.wf(),
                self.size == s,
                s <= 64,
                self.step_counter == old(self).step_counter,
                n == self.atoms@.len(),
                n == old(self).atoms@.len(),
                0 <= i <= n,
                n == s * s * s,
                forall|j: int|
                    0 <= j < i ==> #[trigger] self.atoms@[j] == vacuum_all(
                        old(self).atoms@,
                        si,
                    )[j],
                forall|j: int| i <= j < n ==> #[trigger] self.atoms@[j] == old(self).atoms@[j],
            decreases n - i,
        {
            proof {
                assert(0 < s) by (nonlinear_arith)
                    requires
                        n == s * s * s,
                        0 <= i < n,
                ;
                assert(0 < s * s <= 4096) by (nonlinear_arith)
                    requires
                        0 < s <= 64,
                ;
                lemma_flat_of_pos(si, i as int);
            }
            let x = i / (s * s);
            let y = (i / s) % s;
            let z = i % s;
            if x == 0 || x == s - 1 || y == 0 || y == s - 1 || z == 0 || z == s - 1 {
                self.atoms.set(i, Atom::gas());
            }
            i = i + 1;
        }
        proof {
            assert(self.atoms@ =~= vacuum_all(old(self).atoms@, si));
        }
    }
}

} // verus!
