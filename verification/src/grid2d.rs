//! An earlier, two-dimensional variant of the sandbox: a small square grid
//! of cells holding gas pressure, solid or liquid, equalised over 2x2
//! blocks each update, with the outer edge erased; plus the integer path
//! walk the editor paints cells along.

use vstd::arithmetic::div_mod::{
    lemma_fundamental_div_mod, lemma_fundamental_div_mod_converse_div,
    lemma_mod_division_less_than_divisor, lemma_multiply_divide_le, lemma_multiply_divide_lt,
};
use vstd::prelude::*;

use crate::atom::abs_i;

verus! {

/// Largest pressure a 2D gas cell may hold: block totals of four such
/// cells stay within the machine range.
pub const P2_MAX: u64 = 0x3fff_ffff_ffff_ffff;

/// Side of the 2D grid.
pub const GRID_SIZE: usize = 4;

/// One 2D cell: gas holding a pressure, or a solid or liquid cell.
#[derive(Clone, Copy, PartialEq, Eq, Structural, Debug)]
pub enum Atom2d {
    Gas(u64),
    Solid,
    Liquid,
}

impl Default for Atom2d {
    /// The default cell: gas with zero pressure.
    fn default() -> (r: Atom2d)
        ensures
            r == Atom2d::Gas(0u64),
    {
        Atom2d::Gas(0)
    }
}

/// Index of 2D position `(x, y)` in the flat cell array, x outer.
pub open spec fn idx2(s: int, x: int, y: int) -> int {
    x * s + y
}

/// One step of the editor's path walk from `m` toward `e`: move one cell
/// along the axis with the strictly larger remaining distance, and along y
/// on ties.
pub open spec fn step_toward(m: (int, int), e: (int, int)) -> (int, int) {
    if abs_i(m.0 - e.0) > abs_i(m.1 - e.1) {
        if m.0 < e.0 {
            (m.0 + 1, m.1)
        } else {
            (m.0 - 1, m.1)
        }
    } else {
        if m.1 < e.1 {
            (m.0, m.1 + 1)
        } else {
            (m.0, m.1 - 1)
        }
    }
}

/// The whole path from `m` to `e`, both ends included: each entry one step
/// from the previous, ending at `e`.
pub open spec fn path_spec(m: (int, int), e: (int, int)) -> Seq<(int, int)>
    decreases abs_i(m.0 - e.0) + abs_i(m.1 - e.1),
{
    if m == e {
        seq![m]
    } else {
        seq![m] + path_spec(step_toward(m, e), e)
    }
}

/// The path's length is one more than the Manhattan distance of its ends.
pub proof fn lemma_path_len(m: (int, int), e: (int, int))
    ensures
        path_spec(m, e).len() == 1 + abs_i(m.0 - e.0) + abs_i(m.1 - e.1),
    decreases abs_i(m.0 - e.0) + abs_i(m.1 - e.1),
{
    if m != e {
        lemma_path_len(step_toward(m, e), e);
    }
}

/// Is a 2D cell gas?
pub open spec fn is_gas2(a: Atom2d) -> bool {
    match a {
        Atom2d::Gas(_) => true,
        _ => false,
    }
}

/// A 2D cell's pressure: its gas pressure, or 0 for solid and liquid.
pub open spec fn pres2(a: Atom2d) -> int {
    match a {
        Atom2d::Gas(p) => p as int,
        _ => 0,
    }
}

/// Local equilibrium over the 2x2 block at origin `(ox, oy)`: the gas
/// cells' pressures are averaged (truncating) and written back to each gas
/// cell; solid and liquid cells neither participate nor change.
pub open spec fn equalize_at2(a: Seq<Atom2d>, s: int, ox: int, oy: int) -> Seq<Atom2d> {
    let i00 = idx2(s, ox, oy);
    let i01 = idx2(s, ox, oy + 1);
    let i10 = idx2(s, ox + 1, oy);
    let i11 = idx2(s, ox + 1, oy + 1);
    let cnt = (if is_gas2(a[i00]) {
        1int
    } else {
        0
    }) + (if is_gas2(a[i01]) {
        1int
    } else {
        0
    }) + (if is_gas2(a[i10]) {
        1int
    } else {
        0
    }) + (if is_gas2(a[i11]) {
        1int
    } else {
        0
    });
    let total = pres2(a[i00]) + pres2(a[i01]) + pres2(a[i10]) + pres2(a[i11]);
    if cnt == 0 {
        a
    } else {
        let q = Atom2d::Gas((total / cnt) as u64);
        let a1 = if is_gas2(a[i00]) {
            a.update(i00, q)
        } else {
            a
        };
        let a2 = if is_gas2(a[i01]) {
            a1.update(i01, q)
        } else {
            a1
        };
        let a3 = if is_gas2(a[i10]) {
            a2.update(i10, q)
        } else {
            a2
        };
        if is_gas2(a[i11]) {
            a3.update(i11, q)
        } else {
            a3
        }
    }
}

/// Conservation within a 2x2 block: with `cnt` gas cells holding pressure
/// `total` in all, the equalised block holds exactly `total / cnt` in every
/// gas cell, its other cells unchanged, so its new total is
/// `cnt * (total / cnt)`: the total it held before, less the
/// integer-division remainder, which is smaller than `cnt`.
pub proof fn lemma_equalize2_conservation(a: Seq<Atom2d>, s: int, ox: int, oy: int)
    requires
        2 <= s <= 256,
        a.len() == s * s,
        0 <= ox,
        ox + 1 < s,
        0 <= oy,
        oy + 1 < s,
    ensures
        ({
            let i00 = idx2(s, ox, oy);
            let i01 = idx2(s, ox, oy + 1);
            let i10 = idx2(s, ox + 1, oy);
            let i11 = idx2(s, ox + 1, oy + 1);
            let cnt = (if is_gas2(a[i00]) {
                1int
            } else {
                0
            }) + (if is_gas2(a[i01]) {
                1int
            } else {
                0
            }) + (if is_gas2(a[i10]) {
                1int
            } else {
                0
            }) + (if is_gas2(a[i11]) {
                1int
            } else {
                0
            });
            let total = pres2(a[i00]) + pres2(a[i01]) + pres2(a[i10]) + pres2(a[i11]);
            let b = equalize_at2(a, s, ox, oy);
            cnt > 0 ==> {
                &&& forall|i: int|
                    (i == i00 || i == i01 || i == i10 || i == i11) && is_gas2(a[i]) ==> pres2(
                        #[trigger] b[i],
                    ) == total / cnt
                &&& forall|i: int|
                    (i == i00 || i == i01 || i == i10 || i == i11) && !is_gas2(a[i])
                        ==> #[trigger] b[i] == a[i]
                &&& pres2(b[i00]) + pres2(b[i01]) + pres2(b[i10]) + pres2(b[i11]) == cnt * (total
                    / cnt)
                &&& total - cnt < cnt * (total / cnt) <= total
            }
        }),
{
    let i00 = idx2(s, ox, oy);
    let i01 = idx2(s, ox, oy + 1);
    let i10 = idx2(s, ox + 1, oy);
    let i11 = idx2(s, ox + 1, oy + 1);
    assert(i01 == i00 + 1 && i10 == i00 + s && i11 == i00 + s + 1 && 0 <= i00 && i11 < s
        * s) by (nonlinear_arith)
        requires
            i00 == ox * s + oy,
            i01 == ox * s + oy + 1,
            i10 == (ox + 1) * s + oy,
            i11 == (ox + 1) * s + oy + 1,
            2 <= s,
            0 <= ox,
            ox + 1 < s,
            0 <= oy,
            oy + 1 < s,
    ;
    let cnt = (if is_gas2(a[i00]) {
        1int
    } else {
        0
    }) + (if is_gas2(a[i01]) {
        1int
    } else {
        0
    }) + (if is_gas2(a[i10]) {
        1int
    } else {
        0
    }) + (if is_gas2(a[i11]) {
        1int
    } else {
        0
    });
    let total = pres2(a[i00]) + pres2(a[i01]) + pres2(a[i10]) + pres2(a[i11]);
    if cnt > 0 {
        let q = total / cnt;
        assert(0 <= total) by {
            assert(pres2(a[i00]) >= 0 && pres2(a[i01]) >= 0 && pres2(a[i10]) >= 0 && pres2(
                a[i11],
            ) >= 0);
        }
        assert(0 <= q && 0 <= total % cnt < cnt && total == cnt * q + total % cnt) by {
            lemma_fundamental_div_mod(total, cnt);
            lemma_mod_division_less_than_divisor(total, cnt);
            vstd::arithmetic::div_mod::lemma_div_pos_is_pos(total, cnt);
        }
        assert(cnt * q <= total && total - cnt < cnt * q) by (nonlinear_arith)
            requires
                total == cnt * q + total % cnt,
                0 <= total % cnt < cnt,
        ;
        let b = equalize_at2(a, s, ox, oy);
        assert(pres2(a[i00]) <= 0xffff_ffff_ffff_ffff && pres2(a[i01]) <= 0xffff_ffff_ffff_ffff
            && pres2(a[i10]) <= 0xffff_ffff_ffff_ffff && pres2(a[i11]) <= 0xffff_ffff_ffff_ffff);
        assert(total <= cnt * 0xffff_ffff_ffff_ffff) by (nonlinear_arith)
            requires
                total == pres2(a[i00]) + pres2(a[i01]) + pres2(a[i10]) + pres2(a[i11]),
                cnt == (if is_gas2(a[i00]) {
                    1int
                } else {
                    0
                }) + (if is_gas2(a[i01]) {
                    1int
                } else {
                    0
                }) + (if is_gas2(a[i10]) {
                    1int
                } else {
                    0
                }) + (if is_gas2(a[i11]) {
                    1int
                } else {
                    0
                }),
                pres2(a[i00]) <= 0xffff_ffff_ffff_ffff,
                pres2(a[i01]) <= 0xffff_ffff_ffff_ffff,
                pres2(a[i10]) <= 0xffff_ffff_ffff_ffff,
                pres2(a[i11]) <= 0xffff_ffff_ffff_ffff,
                is_gas2(a[i00]) || pres2(a[i00]) == 0,
                is_gas2(a[i01]) || pres2(a[i01]) == 0,
                is_gas2(a[i10]) || pres2(a[i10]) == 0,
                is_gas2(a[i11]) || pres2(a[i11]) == 0,
                0 <= pres2(a[i00]),
                0 <= pres2(a[i01]),
                0 <= pres2(a[i10]),
                0 <= pres2(a[i11]),
        ;
        assert(q <= 0xffff_ffff_ffff_ffff) by {
            lemma_multiply_divide_le(total, cnt, 0xffff_ffff_ffff_ffff);
        }
        let v = Atom2d::Gas(q as u64);
        assert(pres2(v) == q);
        assert(b[i00] == (if is_gas2(a[i00]) {
            v
        } else {
            a[i00]
        }));
        assert(b[i01] == (if is_gas2(a[i01]) {
            v
        } else {
            a[i01]
        }));
        assert(b[i10] == (if is_gas2(a[i10]) {
            v
        } else {
            a[i10]
        }));
        assert(b[i11] == (if is_gas2(a[i11]) {
            v
        } else {
            a[i11]
        }));
        assert(pres2(b[i00]) + pres2(b[i01]) + pres2(b[i10]) + pres2(b[i11]) == cnt
            * q) by (nonlinear_arith)
            requires
                pres2(b[i00]) + pres2(b[i01]) + pres2(b[i10]) + pres2(b[i11]) == (if is_gas2(
                    a[i00],
                ) {
                    q
                } else {
                    0
                }) + (if is_gas2(a[i01]) {
                    q
                } else {
                    0
                }) + (if is_gas2(a[i10]) {
                    q
                } else {
                    0
                }) + (if is_gas2(a[i11]) {
                    q
                } else {
                    0
                }),
                cnt == (if is_gas2(a[i00]) {
                    1int
                } else {
                    0
                }) + (if is_gas2(a[i01]) {
                    1int
                } else {
                    0
                }) + (if is_gas2(a[i10]) {
                    1int
                } else {
                    0
                }) + (if is_gas2(a[i11]) {
                    1int
                } else {
                    0
                }),
        ;
    }
}

/// The origin of the block with rank `r` in the pass of the given
/// alignment (0: blocks at even offsets over the whole grid; 1: blocks at
/// odd offsets over the interior).
pub open spec fn pass_origin2(s: int, parity: int, r: int) -> (int, int) {
    let h = (s - 2 * parity) / 2;
    (parity + 2 * (r / h), parity + 2 * (r % h))
}

/// The first `n` blocks of a pass applied in rank order.
pub open spec fn pass_upto2(a: Seq<Atom2d>, s: int, parity: int, n: nat) -> Seq<Atom2d>
    decreases n,
{
    if n == 0 {
        a
    } else {
        let o = pass_origin2(s, parity, n - 1);
        equalize_at2(pass_upto2(a, s, parity, (n - 1) as nat), s, o.0, o.1)
    }
}

/// The grid with its outer edge erased to zero-pressure gas.
pub open spec fn erase_edges2(a: Seq<Atom2d>, s: int) -> Seq<Atom2d> {
    Seq::new(
        a.len(),
        |i: int|
            if i / s == 0 || i / s == s - 1 || i % s == 0 || i % s == s - 1 {
                Atom2d::Gas(0u64)
            } else {
                a[i]
            },
    )
}

/// One whole 2D update: the even-aligned equilibrium pass over all blocks,
/// then the odd-aligned pass over the interior blocks, then the edge erase.
pub open spec fn update2_spec(a: Seq<Atom2d>, s: int) -> Seq<Atom2d> {
    let he = s / 2;
    let ho = (s - 2) / 2;
    erase_edges2(pass_upto2(pass_upto2(a, s, 0, (he * he) as nat), s, 1, (ho * ho) as nat), s)
}

/// A 2D grid: a dense square array of cells, x outer, y inner.
pub struct Grid2d {
    pub atoms: Vec<Atom2d>,
    pub size: usize,
}

impl Grid2d {
    /// Well-formedness: an even side of at least 2, fully allocated.
    pub open spec fn wf(&self) -> bool {
        &&& 2 <= self.size <= 256
        &&& self.size % 2 == 0
        &&& self.atoms@.len() == self.size * self.size
        &&& forall|i: int| 0 <= i < self.atoms@.len() ==> pres2(#[trigger] self.atoms@[i]) <= P2_MAX
    }

    /// A fresh grid of side `GRID_SIZE`, every cell the default gas.
    pub fn new() -> (r: Grid2d)
        ensures
            r.wf(),
            r.size == GRID_SIZE,
            r.atoms@.len() == GRID_SIZE * GRID_SIZE,
            forall|i: int| 0 <= i < r.atoms@.len() ==> #[trigger] r.atoms@[i] == Atom2d::Gas(0u64),
    {
        let n = GRID_SIZE * GRID_SIZE;
        let mut atoms: Vec<Atom2d> = Vec::new();
        let mut i: usize = 0;
        while i < n
            invariant
                0 <= i <= n,
                atoms@.len() == i,
                forall|j: int| 0 <= j < i ==> #[trigger] atoms@[j] == Atom2d::Gas(0u64),
            decreases n - i,
        {
            atoms.push(Atom2d::Gas(0));
            i = i + 1;
        }
        Grid2d { atoms, size: GRID_SIZE }
    }

    /// The cells the editor paints when dragged from `start` to `end`: the
    /// path walks one cell at a time, always along the axis with the
    /// strictly larger remaining distance (y on ties), so it visits exactly
    /// `1 + |dx| + |dy|` cells, starting at `start` and ending at `end`.
    pub fn atoms_on_path(start: (usize, usize), end: (usize, usize)) -> (r: Vec<(usize, usize)>)
        requires
            start.0 <= 0x7fff_ffff,
            start.1 <= 0x7fff_ffff,
            end.0 <= 0x7fff_ffff,
            end.1 <= 0x7fff_ffff,
        ensures
            r@.len() == path_spec(
                (start.0 as int, start.1 as int),
                (end.0 as int, end.1 as int),
            ).len(),
            forall|k: int|
                0 <= k < r@.len() ==> (#[trigger] r@[k].0 as int, r@[k].1 as int) == path_spec(
                    (start.0 as int, start.1 as int),
                    (end.0 as int, end.1 as int),
                )[k],
    {
        let ghost e = (end.0 as int, end.1 as int);
        let ghost whole = path_spec((start.0 as int, start.1 as int), e);
        let mut r: Vec<(usize, usize)> = Vec::new();
        let mut mover = start;
        r.push(mover);
        while mover.0 != end.0 || mover.1 != end.1
            invariant
                mover.0 <= start.0 + end.0 + 1,
                mover.1 <= start.1 + end.1 + 1,
                start.0 <= 0x7fff_ffff,
                start.1 <= 0x7fff_ffff,
                end.0 <= 0x7fff_ffff,
                end.1 <= 0x7fff_ffff,
                e == (end.0 as int, end.1 as int),
                whole == path_spec((start.0 as int, start.1 as int), e),
                r@.len() >= 1,
                r@[r@.len() - 1] == mover,
                whole =~= r@.map_values(|p: (usize, usize)| (p.0 as int, p.1 as int)).drop_last()
                    + path_spec((mover.0 as int, mover.1 as int), e),
            decreases abs_i(mover.0 as int - e.0) + abs_i(mover.1 as int - e.1),
        {
            let ghost mi = (mover.0 as int, mover.1 as int);
            let dx = if mover.0 > end.0 {
                mover.0 - end.0
            } else {
                end.0 - mover.0
            };
            let dy = if mover.1 > end.1 {
                mover.1 - end.1
            } else {
                end.1 - mover.1
            };
            if dx > dy {
                if mover.0 < end.0 {
                    mover.0 = mover.0 + 1;
                } else {
                    mover.0 = mover.0 - 1;
                }
            } else {
                if mover.1 < end.1 {
                    mover.1 = mover.1 + 1;
                } else {
                    mover.1 = mover.1 - 1;
                }
            }
            proof {
                assert((mover.0 as int, mover.1 as int) == step_toward(mi, e));
                assert(path_spec(mi, e) == seq![mi] + path_spec(step_toward(mi, e), e));
            }
            r.push(mover);
            proof {
                assert(whole =~= r@.map_values(
                    |p: (usize, usize)| (p.0 as int, p.1 as int),
                ).drop_last() + path_spec((mover.0 as int, mover.1 as int), e));
            }
        }
        proof {
            assert(path_spec((mover.0 as int, mover.1 as int), e) =~= seq![e]);
            assert(whole =~= r@.map_values(|p: (usize, usize)| (p.0 as int, p.1 as int)));
        }
        r
    }

    /// Local equilibrium over one 2x2 block, staged: the four cells are
    /// read out, the gas pressures averaged, and the average written back
    /// to the gas cells by index.
    fn equalize_block2(&mut self, ox: usize, oy: usize)
        requires
            old(self).wf(),
            ox + 1 < old(self).size,
            oy + 1 < old(self).size,
        ensures
            final(self).wf(),
            final(self).size == old(self).size,
            final(self).atoms@ == equalize_at2(
                old(self).atoms@,
                old(self).size as int,
                ox as int,
                oy as int,
            ),
    {
        let s = self.size;
        proof {
            assert((ox + 1) * s + oy + 1 < s * s && s * s <= 65536 && ox * s + oy >= 0 && ox * s
                + oy + 1 <= (ox + 1) * s + oy + 1 && 0 <= ox * s) by (nonlinear_arith)
                requires
                    0 <= ox as int,
                    0 <= oy as int,
                    ox + 1 < s,
                    oy + 1 < s,
                    s <= 256,
            ;
        }
        let i00 = ox * s + oy;
        let i01 = ox * s + oy + 1;
        let i10 = (ox + 1) * s + oy;
        let i11 = (ox + 1) * s + oy + 1;
        let mut cnt: u64 = 0;
        let mut total: u64 = 0;
        let a00 = self.atoms[i00];
        let a01 = self.atoms[i01];
        let a10 = self.atoms[i10];
        let a11 = self.atoms[i11];
        if let Atom2d::Gas(p) = a00 {
            cnt = cnt + 1;
            total = total + p;
        }
        if let Atom2d::Gas(p) = a01 {
            cnt = cnt + 1;
            total = total + p;
        }
        if let Atom2d::Gas(p) = a10 {
            cnt = cnt + 1;
            total = total + p;
        }
        if let Atom2d::Gas(p) = a11 {
            cnt = cnt + 1;
            total = total + p;
        }
        if cnt > 0 {
            proof {
                lemma_multiply_divide_le(total as int, cnt as int, P2_MAX as int);
                vstd::arithmetic::div_mod::lemma_div_pos_is_pos(total as int, cnt as int);
            }
            let q = Atom2d::Gas(total / cnt);
            if let Atom2d::Gas(_) = a00 {
                self.atoms.set(i00, q);
            }
            if let Atom2d::Gas(_) = a01 {
                self.atoms.set(i01, q);
            }
            if let Atom2d::Gas(_) = a10 {
                self.atoms.set(i10, q);
            }
            if let Atom2d::Gas(_) = a11 {
                self.atoms.set(i11, q);
            }
        }
        proof {
            assert(final(self).atoms@ =~= equalize_at2(
                old(self).atoms@,
                old(self).size as int,
                ox as int,
                oy as int,
            ));
        }
    }

    /// One equilibrium pass: every block of the given alignment, in rank
    /// order.
    fn run_pass2(&mut self, odd_phase: bool)
        requires
            old(self).wf(),
        ensures
            final(self).wf(),
            final(self).size == old(self).size,
            final(self).atoms@ == ({
                let p: int = if odd_phase {
                    1
                } else {
                    0
                };
                let h = (old(self).size as int - 2 * p) / 2;
                pass_upto2(old(self).atoms@, old(self).size as int, p, (h * h) as nat)
            }),
    {
        let ghost parity: int = if odd_phase {
            1int
        } else {
            0int
        };
        let s = self.size;
        let ghost si = s as int;
        let base: usize = if odd_phase {
            1
        } else {
            0
        };
        let h = (s - 2 * base) / 2;
        let ghost hi = h as int;
        proof {
            lemma_fundamental_div_mod(si, 2);
            lemma_fundamental_div_mod_converse_div(si - 2 * parity, 2, si / 2 - parity, 0);
            assert(2 * hi == si - 2 * parity);
            assert(0 <= hi * hi <= 16384) by (nonlinear_arith)
                requires
                    0 <= hi <= 128,
            ;
        }
        let nb = h * h;
        let mut r: usize = 0;
        while r < nb
            invariant
                si == s as int,
                hi == h as int,
                parity == (if odd_phase {
                    1int
                } else {
                    0int
                }),
                base as int == parity,
                hi == (si - 2 * parity) / 2,
                2 * hi == si - 2 * parity,
                self.wf(),
                self.size == s,
                s <= 256,
                nb as int == hi * hi,
                0 <= r <= nb,
                self.atoms@ == pass_upto2(old(self).atoms@, si, parity, r as nat),
            decreases nb - r,
        {
            proof {
                assert(0 < hi) by (nonlinear_arith)
                    requires
                        0 <= hi,
                        (r as int) < hi * hi,
                        0 <= r as int,
                ;
                lemma_multiply_divide_lt(r as int, hi, hi);
                lemma_mod_division_less_than_divisor(r as int, hi);
                vstd::arithmetic::div_mod::lemma_div_pos_is_pos(r as int, hi);
            }
            let bx = r / h;
            let by = r % h;
            let ox = base + 2 * bx;
            let oy = base + 2 * by;
            proof {
                assert(pass_origin2(si, parity, r as int) == (ox as int, oy as int));
                assert(ox + 1 < s && oy + 1 < s);
            }
            self.equalize_block2(ox, oy);
            r = r + 1;
        }
    }

    /// The 2x2 local-equilibrium update: the even-aligned pass over the
    /// whole grid, the odd-aligned pass over the interior, then the outer
    /// edge erased to zero-pressure gas.
    fn update_gas_with_2x2_equilibrium(&mut self)
        requires
            old(self).wf(),
        ensures
            final(self).wf(),
            final(self).size == old(self).size,
            final(self).atoms@ == update2_spec(old(self).atoms@, old(self).size as int),
    {
        self.run_pass2(false);
        self.run_pass2(true);
        let s = self.size;
        let n = self.atoms.len();
        let ghost mid = self.atoms@;
        let mut i: usize = 0;
        while i < n
            invariant
                self.wf(),
                self.size == s,
                n == self.atoms@.len(),
                n == mid.len(),
                0 <= i <= n,
                forall|j: int|
                    0 <= j < i ==> #[trigger] self.atoms@[j] == erase_edges2(mid, s as int)[j],
                forall|j: int| i <= j < n ==> #[trigger] self.atoms@[j] == mid[j],
            decreases n - i,
        {
            let x = i / s;
            let y = i % s;
            if x == 0 || x == s - 1 || y == 0 || y == s - 1 {
                self.atoms.set(i, Atom2d::Gas(0));
            }
            i = i + 1;
        }
        proof {
            assert(self.atoms@ =~= erase_edges2(mid, s as int));
        }
    }

    /// One 2D simulation update: reach local equilibrium over the
    /// checkerboard blocks and vent the outer edge.
    pub fn update(&mut self)
        requires
            old(self).wf(),
        ensures
            final(self).wf(),
            final(self).size == old(self).size,
            final(self).atoms@ == update2_spec(old(self).atoms@, old(self).size as int),
    {
        self.update_gas_with_2x2_equilibrium();
    }
}

/// A coordinate clamped into `[0, s - 1]`.
pub open spec fn clamp2(c: int, s: int) -> int {
    if c >= s {
        s - 1
    } else {
        c
    }
}

/// The grid after writing `v` to the first `n` cells of a path.
pub open spec fn write_path2(
    a: Seq<Atom2d>,
    s: int,
    p: Seq<(int, int)>,
    n: nat,
    v: Atom2d,
) -> Seq<Atom2d>
    decreases n,
{
    if n == 0 {
        a
    } else {
        write_path2(a, s, p, (n - 1) as nat, v).update(idx2(s, p[n - 1].0, p[n - 1].1), v)
    }
}

/// The smaller of two values.
pub open spec fn low2(a: int, b: int) -> int {
    if a < b {
        a
    } else {
        b
    }
}

/// The larger of two values.
pub open spec fn high2(a: int, b: int) -> int {
    if a < b {
        b
    } else {
        a
    }
}

/// Every cell of a path lies in the bounding box of its two ends.
pub proof fn lemma_path_in_box(m: (int, int), e: (int, int))
    ensures
        forall|k: int|
            0 <= k < path_spec(m, e).len() ==> {
                let c = #[trigger] path_spec(m, e)[k];
                low2(m.0, e.0) <= c.0 <= high2(m.0, e.0) && low2(m.1, e.1) <= c.1 <= high2(
                    m.1,
                    e.1,
                )
            },
    decreases abs_i(m.0 - e.0) + abs_i(m.1 - e.1),
{
    if m != e {
        let nxt = step_toward(m, e);
        lemma_path_in_box(nxt, e);
        assert forall|k: int| 0 <= k < path_spec(m, e).len() implies {
            let c = #[trigger] path_spec(m, e)[k];
            low2(m.0, e.0) <= c.0 <= high2(m.0, e.0) && low2(m.1, e.1) <= c.1 <= high2(m.1, e.1)
        } by {
            if k > 0 {
                assert(path_spec(m, e)[k] == path_spec(nxt, e)[k - 1]);
            }
        }
    }
}

impl Grid2d {
    /// Write `atom_to_write` to every cell on the editor's path between
    /// `start` and `end`, each coordinate first clamped into the grid.
    pub fn modify_under_path(
        &mut self,
        start: (usize, usize),
        end: (usize, usize),
        atom_to_write: Atom2d,
    )
        requires
            old(self).wf(),
            pres2(atom_to_write) <= P2_MAX,
        ensures
            final(self).wf(),
            final(self).size == old(self).size,
            final(self).atoms@ == ({
                let si = old(self).size as int;
                let cs = (clamp2(start.0 as int, si), clamp2(start.1 as int, si));
                let ce = (clamp2(end.0 as int, si), clamp2(end.1 as int, si));
                write_path2(
                    old(self).atoms@,
                    si,
                    path_spec(cs, ce),
                    path_spec(cs, ce).len(),
                    atom_to_write,
                )
            }),
    {
        let s = self.size;
        let ghost si = s as int;
        let sx = if start.0 >= s {
            s - 1
        } else {
            start.0
        };
        let sy = if start.1 >= s {
            s - 1
        } else {
            start.1
        };
        let ex = if end.0 >= s {
            s - 1
        } else {
            end.0
        };
        let ey = if end.1 >= s {
            s - 1
        } else {
            end.1
        };
        let ghost cs = (sx as int, sy as int);
        let ghost ce = (ex as int, ey as int);
        let ghost pth = path_spec(cs, ce);
        proof {
            lemma_path_in_box(cs, ce);
        }
        let path = Grid2d::atoms_on_path((sx, sy), (ex, ey));
        let m = path.len();
        let mut k: usize = 0;
        while k < m
            invariant
                si == s as int,
                self.wf(),
                self.size == s,
                s <= 256,
                cs == (sx as int, sy as int),
                ce == (ex as int, ey as int),
                sx < s,
                sy < s,
                ex < s,
                ey < s,
                pth == path_spec(cs, ce),
                m == path@.len(),
                m == pth.len(),
                forall|j: int|
                    0 <= j < m ==> (#[trigger] path@[j].0 as int, path@[j].1 as int) == pth[j],
                forall|j: int|
                    0 <= j < pth.len() ==> {
                        let c = #[trigger] pth[j];
                        low2(cs.0, ce.0) <= c.0 <= high2(cs.0, ce.0) && low2(cs.1, ce.1) <= c.1
                            <= high2(cs.1, ce.1)
                    },
                pres2(atom_to_write) <= P2_MAX,
                0 <= k <= m,
                self.atoms@ == write_path2(old(self).atoms@, si, pth, k as nat, atom_to_write),
            decreases m - k,
        {
            let (cx, cy) = path[k];
            proof {
                assert((cx as int, cy as int) == pth[k as int]);
                assert(cx < s && cy < s);
                assert(cx as int * si + cy < si * si && si * si <= 65536 && 0 <= cx as int * si
                    + cy) by (nonlinear_arith)
                    requires
                        0 <= (cx as int) && (cx as int) < si,
                        0 <= (cy as int) && (cy as int) < si,
                        si <= 256,
                ;
            }
            let i = cx * s + cy;
            self.atoms.set(i, atom_to_write);
            k = k + 1;
        }
    }
}

} // verus!
