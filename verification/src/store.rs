//! Persistence of the cell array as a flat sequence of signed words: the
//! grid side first, then five words per cell (variant tag, pressure, and
//! the three velocity components) in flat cell order. Loading validates
//! every word, so only well-formed grids come back, and loading what was
//! saved reproduces the cell array exactly.

use vstd::prelude::*;

use crate::atom::{abs_i, wf_atom, Atom, AtomVariant, IVec3, P_MAX, V_MAX};
use crate::grid::{valid_size, Grid};

verus! {

/// The tag word a variant is stored as.
pub open spec fn tag_of(v: AtomVariant) -> int {
    match v {
        AtomVariant::Solid => 0,
        AtomVariant::Gas => 1,
        AtomVariant::GasSource => 2,
    }
}

/// The variant a tag word stands for.
pub open spec fn variant_of_tag(t: int) -> AtomVariant {
    if t == 0 {
        AtomVariant::Solid
    } else if t == 1 {
        AtomVariant::Gas
    } else {
        AtomVariant::GasSource
    }
}

/// The five words one cell is stored as.
pub open spec fn atom_words(a: Atom) -> Seq<i64> {
    seq![tag_of(a.variant) as i64, a.pres as i64, a.vel.x, a.vel.y, a.vel.z]
}

/// The words of the first `n` cells, in flat cell order.
pub open spec fn cells_words(a: Seq<Atom>, n: nat) -> Seq<i64>
    decreases n,
{
    if n == 0 {
        Seq::empty()
    } else {
        cells_words(a, (n - 1) as nat) + atom_words(a[n - 1])
    }
}

/// The whole saved form of a grid: its side, then every cell.
pub open spec fn encode_spec(size: int, a: Seq<Atom>) -> Seq<i64> {
    seq![size as i64] + cells_words(a, a.len())
}

/// Are the five words of cell `i` a valid stored cell: a known tag, a
/// pressure and velocity within the cell bounds, and a unit axis direction
/// for a source?
pub open spec fn cell_words_ok(w: Seq<i64>, i: int) -> bool {
    let t = w[1 + 5 * i] as int;
    let p = w[2 + 5 * i] as int;
    let vx = w[3 + 5 * i] as int;
    let vy = w[4 + 5 * i] as int;
    let vz = w[5 + 5 * i] as int;
    &&& (t == 0 || t == 1 || t == 2)
    &&& 0 <= p <= P_MAX
    &&& -V_MAX <= vx <= V_MAX
    &&& -V_MAX <= vy <= V_MAX
    &&& -V_MAX <= vz <= V_MAX
    &&& (t == 2 ==> abs_i(vx) + abs_i(vy) + abs_i(vz) == 1)
}

/// The cell that the five words of cell `i` stand for.
pub open spec fn atom_of_words(w: Seq<i64>, i: int) -> Atom {
    Atom {
        variant: variant_of_tag(w[1 + 5 * i] as int),
        pres: w[2 + 5 * i] as u64,
        vel: IVec3 { x: w[3 + 5 * i], y: w[4 + 5 * i], z: w[5 + 5 * i] },
    }
}

/// Is a word sequence a valid saved grid: a supported side, exactly five
/// words per cell after it, and every cell valid?
pub open spec fn wf_words(w: Seq<i64>) -> bool {
    &&& w.len() >= 1
    &&& valid_size(w[0] as int)
    &&& w.len() == 1 + 5 * ((w[0] as int) * (w[0] as int) * (w[0] as int))
    &&& forall|i: int|
        0 <= i < (w[0] as int) * (w[0] as int) * (w[0] as int) ==> #[trigger] cell_words_ok(w, i)
}

/// The stored cells have five words each.
proof fn lemma_cells_words_len(a: Seq<Atom>, n: nat)
    ensures
        cells_words(a, n).len() == 5 * n,
    decreases n,
{
    if n > 0 {
        lemma_cells_words_len(a, (n - 1) as nat);
    }
}

/// Word `5 * i + m` of the stored cells is word `m` of cell `i`.
proof fn lemma_cells_words_index(a: Seq<Atom>, n: nat, i: int, m: int)
    requires
        0 <= i < n,
        0 <= m < 5,
    ensures
        cells_words(a, n).len() == 5 * n,
        cells_words(a, n)[5 * i + m] == atom_words(a[i])[m],
    decreases n,
{
    lemma_cells_words_len(a, n);
    if i == n - 1 {
        lemma_cells_words_len(a, (n - 1) as nat);
    } else {
        lemma_cells_words_index(a, (n - 1) as nat, i, m);
    }
}

impl Grid {
    /// The grid's saved form: its side, then five words per cell (variant
    /// tag, pressure, velocity components) in flat cell order.
    pub fn save_data(&self) -> (r: Vec<i64>)
        requires
            self.wf(),
        ensures
            r@ == encode_spec(self.size as int, self.atoms@),
            r@.len() == 1 + 5 * self.atoms@.len(),
            r@[0] == self.size as i64,
            forall|i: int|
                0 <= i < self.atoms@.len() ==> #[trigger] atom_of_words(r@, i) == self.atoms@[i],
            valid_size(self.size as int) ==> wf_words(r@),
    {
        let n = self.atoms.len();
        let mut r: Vec<i64> = Vec::new();
        r.push(self.size as i64);
        let mut i: usize = 0;
        while i < n
            invariant
                self.wf(),
                n == self.atoms@.len(),
                0 <= i <= n,
                r@ == seq![self.size as i64] + cells_words(self.atoms@, i as nat),
                r@.len() == 1 + 5 * i,
            decreases n - i,
        {
            proof {
                lemma_cells_words_len(self.atoms@, i as nat);
            }
            let a = self.atoms[i];
            let t: i64 = match a.variant {
                AtomVariant::Solid => 0,
                AtomVariant::Gas => 1,
                AtomVariant::GasSource => 2,
            };
            r.push(t);
            r.push(a.pres as i64);
            r.push(a.vel.x);
            r.push(a.vel.y);
            r.push(a.vel.z);
            i = i + 1;
            proof {
                assert(cells_words(self.atoms@, i as nat) == cells_words(
                    self.atoms@,
                    (i - 1) as nat,
                ) + atom_words(self.atoms@[i - 1]));
                assert(r@ =~= seq![self.size as i64] + cells_words(self.atoms@, i as nat));
            }
        }
        proof {
            lemma_roundtrip_words(self.size as int, self.atoms@);
            assert(r@ =~= encode_spec(self.size as int, self.atoms@));
        }
        r
    }
}

/// Round-trip persistence: the saved form of a well-formed grid is a valid
/// saved grid, names the same side, and decodes cell by cell to exactly the
/// cells it was saved from. Together with the contract of `load_data`
/// (which accepts a word sequence if and only if it is a valid saved grid,
/// and then reconstructs exactly these cells), saving and then loading
/// reproduces an identical cell array.
pub proof fn lemma_roundtrip_words(size: int, a: Seq<Atom>)
    requires
        a.len() == size * size * size,
        forall|j: int| 0 <= j < a.len() ==> wf_atom(#[trigger] a[j]),
        0 <= size <= 64,
    ensures
        encode_spec(size, a)[0] == size as i64,
        encode_spec(size, a).len() == 1 + 5 * a.len(),
        forall|i: int| 0 <= i < a.len() ==> #[trigger] atom_of_words(encode_spec(size, a), i) == a[i],
        valid_size(size) ==> wf_words(encode_spec(size, a)),
{
    let w = encode_spec(size, a);
    lemma_cells_words_len(a, a.len());
    assert forall|i: int| 0 <= i < a.len() implies #[trigger] atom_of_words(w, i) == a[i] by {
        lemma_cells_words_index(a, a.len(), i, 0);
        lemma_cells_words_index(a, a.len(), i, 1);
        lemma_cells_words_index(a, a.len(), i, 2);
        lemma_cells_words_index(a, a.len(), i, 3);
        lemma_cells_words_index(a, a.len(), i, 4);
    }
    assert forall|i: int| 0 <= i < a.len() implies #[trigger] cell_words_ok(w, i) by {
        lemma_cells_words_index(a, a.len(), i, 0);
        lemma_cells_words_index(a, a.len(), i, 1);
        lemma_cells_words_index(a, a.len(), i, 2);
        lemma_cells_words_index(a, a.len(), i, 3);
        lemma_cells_words_index(a, a.len(), i, 4);
        assert(w[1 + 5 * i] == atom_words(a[i])[0]);
        assert(w[2 + 5 * i] == atom_words(a[i])[1]);
        assert(w[3 + 5 * i] == atom_words(a[i])[2]);
        assert(w[4 + 5 * i] == atom_words(a[i])[3]);
        assert(w[5 + 5 * i] == atom_words(a[i])[4]);
    }
}

/// Rebuild a grid from its saved form. Returns the grid exactly when the
/// words are a valid saved grid (see `wf_words`); any shape or value
/// mismatch yields nothing, so a caller can fall back to a fresh grid. The
/// rebuilt grid is well formed, carries the stored cells, and starts with
/// step counter 0.
pub fn load_data(data: &Vec<i64>) -> (r: Option<Grid>)
    ensures
        r is Some <==> wf_words(data@),
        match r {
            Some(g) => {
                &&& g.wf()
                &&& g.step_counter == 0
                &&& g.size as int == data@[0] as int
                &&& g.atoms@.len() == (data@[0] as int) * (data@[0] as int) * (data@[0] as int)
                &&& forall|i: int|
                    0 <= i < g.atoms@.len() ==> #[trigger] g.atoms@[i] == atom_of_words(data@, i)
            },
            None => true,
        },
{
    if data.len() == 0 {
        return None;
    }
    let s64 = data[0];
    if s64 < 4 || s64 > 64 {
        return None;
    }
    let s = s64 as usize;
    if s % 2 != 0 {
        return None;
    }
    let ghost si = s as int;
    proof {
        assert(0 < si * si <= 4096 && 0 < (si * si) * si <= 262144 && (si * si) * si == si * si
            * si) by (nonlinear_arith)
            requires
                0 < si <= 64,
        ;
    }
    let n = (s * s) * s;
    if data.len() != 1 + 5 * n {
        return None;
    }
    let mut atoms: Vec<Atom> = Vec::new();
    let mut i: usize = 0;
    while i < n
        invariant
            si == s as int,
            si == data@[0] as int,
            valid_size(si),
            n as int == si * si * si,
            n <= 262144,
            data@.len() == 1 + 5 * n,
            0 <= i <= n,
            atoms@.len() == i,
            forall|j: int| 0 <= j < i ==> #[trigger] cell_words_ok(data@, j),
            forall|j: int|
                #![trigger atoms@[j]]
                0 <= j < i ==> atoms@[j] == atom_of_words(data@, j) && wf_atom(atoms@[j]),
        decreases n - i,
    {
        let t = data[1 + 5 * i];
        let p = data[2 + 5 * i];
        let vx = data[3 + 5 * i];
        let vy = data[4 + 5 * i];
        let vz = data[5 + 5 * i];
        if !(t == 0 || t == 1 || t == 2) {
            proof {
                assert(!cell_words_ok(data@, i as int));
            }
            return None;
        }
        if p < 0 || p > P_MAX as i64 {
            proof {
                assert(!cell_words_ok(data@, i as int));
            }
            return None;
        }
        if vx < -V_MAX || vx > V_MAX || vy < -V_MAX || vy > V_MAX || vz < -V_MAX || vz > V_MAX {
            proof {
                assert(!cell_words_ok(data@, i as int));
            }
            return None;
        }
        let ax = if vx < 0 {
            -vx
        } else {
            vx
        };
        let ay = if vy < 0 {
            -vy
        } else {
            vy
        };
        let az = if vz < 0 {
            -vz
        } else {
            vz
        };
        if t == 2 && ax + ay + az != 1 {
            proof {
                assert(!cell_words_ok(data@, i as int));
            }
            return None;
        }
        let variant = if t == 0 {
            AtomVariant::Solid
        } else if t == 1 {
            AtomVariant::Gas
        } else {
            AtomVariant::GasSource
        };
        let a = Atom { variant, pres: p as u64, vel: IVec3 { x: vx, y: vy, z: vz } };
        proof {
            assert(cell_words_ok(data@, i as int));
            assert(a == atom_of_words(data@, i as int));
            assert(wf_atom(a));
        }
        atoms.push(a);
        i = i + 1;
    }
    proof {
        assert(wf_words(data@));
    }
    Some(Grid { atoms, size: s, step_counter: 0 })
}

} // verus!
