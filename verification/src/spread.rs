//! Phase C of the simulation step: the checkerboard local-equilibrium
//! spread. The grid is tiled by 2x2x2 blocks, either aligned at even
//! coordinates or shifted by one on every axis; within each block the gas
//! cells' pressure and velocity are averaged and written back, with solid
//! and source cells left alone. The two alignments run on alternating
//! steps, so each block is updated from values no other block of the same
//! pass touches.

use vstd::arithmetic::div_mod::{
    lemma_div_pos_is_pos, lemma_fundamental_div_mod_converse_div,
    lemma_fundamental_div_mod_converse_mod, lemma_multiply_divide_le,
};
use vstd::prelude::*;

use crate::atom::{wf_atom, Atom, AtomVariant, IVec3, P_MAX, V_MAX};
use crate::fixed::{div_trunc, div_trunc_i64, lemma_div_trunc_bound};
use crate::grid::{
    flat_idx, lemma_flat_idx_bounds, lemma_flat_of_pos, lemma_pos_of_flat, pos_x, pos_y, pos_z,
    valid_size, Grid,
};

verus! {

/// Is coordinate `c` covered by the blocks of the given alignment? The even
/// alignment (`parity` 0) tiles the whole grid; the odd alignment
/// (`parity` 1) tiles the interior, leaving the outermost layer alone.
pub open spec fn covered(parity: int, s: int, c: int) -> bool {
    if parity == 0 {
        0 <= c < s
    } else {
        1 <= c <= s - 2
    }
}

/// The origin coordinate of the block of the given alignment that covers
/// coordinate `c`.
pub open spec fn origin_of(parity: int, c: int) -> int {
    if parity == 0 {
        2 * (c / 2)
    } else if c % 2 == 1 {
        c
    } else {
        c - 1
    }
}

/// Is the cell at flat index `i` inside some block of the given alignment?
pub open spec fn cell_active(s: int, parity: int, i: int) -> bool {
    covered(parity, s, pos_x(s, i)) && covered(parity, s, pos_y(s, i)) && covered(
        parity,
        s,
        pos_z(s, i),
    )
}

/// Blocks of one alignment per axis: `s/2` for the even alignment,
/// `(s-2)/2` for the odd one.
pub open spec fn half_count(s: int, parity: int) -> int {
    (s - 2 * parity) / 2
}

/// The flat index of block cell `k` (0..8) of the block at origin
/// `(ox, oy, oz)`.
pub open spec fn block_cell(s: int, ox: int, oy: int, oz: int, k: int) -> int {
    flat_idx(s, ox + k / 4, oy + (k / 2) % 2, oz + k % 2)
}

/// Number of gas cells among the first `k` cells of a block.
pub open spec fn block_gas_count(a: Seq<Atom>, s: int, ox: int, oy: int, oz: int, k: nat) -> int
    decreases k,
{
    if k == 0 {
        0
    } else {
        block_gas_count(a, s, ox, oy, oz, (k - 1) as nat) + if a[block_cell(
            s,
            ox,
            oy,
            oz,
            k - 1,
        )].variant == AtomVariant::Gas {
            1int
        } else {
            0
        }
    }
}

/// Sum of the pressures of the gas cells among the first `k` cells of a
/// block.
pub open spec fn block_pres_sum(a: Seq<Atom>, s: int, ox: int, oy: int, oz: int, k: nat) -> int
    decreases k,
{
    if k == 0 {
        0
    } else {
        block_pres_sum(a, s, ox, oy, oz, (k - 1) as nat) + if a[block_cell(
            s,
            ox,
            oy,
            oz,
            k - 1,
        )].variant == AtomVariant::Gas {
            a[block_cell(s, ox, oy, oz, k - 1)].pres as int
        } else {
            0
        }
    }
}

/// One velocity component of an atom, selected by axis 0, 1 or 2.
pub open spec fn vel_axis(a: Atom, axis: int) -> int {
    if axis == 0 {
        a.vel.x as int
    } else if axis == 1 {
        a.vel.y as int
    } else {
        a.vel.z as int
    }
}

/// Sum of one velocity component over the gas cells among the first `k`
/// cells of a block.
pub open spec fn block_vel_sum(
    a: Seq<Atom>,
    s: int,
    ox: int,
    oy: int,
    oz: int,
    axis: int,
    k: nat,
) -> int
    decreases k,
{
    if k == 0 {
        0
    } else {
        block_vel_sum(a, s, ox, oy, oz, axis, (k - 1) as nat) + if a[block_cell(
            s,
            ox,
            oy,
            oz,
            k - 1,
        )].variant == AtomVariant::Gas {
            vel_axis(a[block_cell(s, ox, oy, oz, k - 1)], axis)
        } else {
            0
        }
    }
}

/// What the spread pass of the given alignment makes of the cell at flat
/// index `i`, computed entirely from the grid before the pass: a gas cell
/// inside an active block takes the block's average gas pressure and
/// velocity; every other cell is left alone.
pub open spec fn spread_cell(a: Seq<Atom>, s: int, parity: int, i: int) -> Atom {
    let atom = a[i];
    if atom.variant == AtomVariant::Gas && cell_active(s, parity, i) {
        let ox = origin_of(parity, pos_x(s, i));
        let oy = origin_of(parity, pos_y(s, i));
        let oz = origin_of(parity, pos_z(s, i));
        let cnt = block_gas_count(a, s, ox, oy, oz, 8);
        Atom {
            variant: AtomVariant::Gas,
            pres: (block_pres_sum(a, s, ox, oy, oz, 8) / cnt) as u64,
            vel: IVec3 {
                x: div_trunc(block_vel_sum(a, s, ox, oy, oz, 0, 8), cnt) as i64,
                y: div_trunc(block_vel_sum(a, s, ox, oy, oz, 1, 8), cnt) as i64,
                z: div_trunc(block_vel_sum(a, s, ox, oy, oz, 2, 8), cnt) as i64,
            },
        }
    } else {
        atom
    }
}

/// The whole grid after the spread pass of the given alignment.
pub open spec fn spread_all(a: Seq<Atom>, s: int, parity: int) -> Seq<Atom> {
    Seq::new(a.len(), |i: int| spread_cell(a, s, parity, i))
}

/// The rank of the block covering the cell at flat index `i`: the blocks of
/// one alignment, ordered x outer, y middle, z inner, form a grid of side
/// `half_count`, and the rank is the covering block's flat index in it.
pub open spec fn block_rank(s: int, parity: int, i: int) -> int {
    flat_idx(
        half_count(s, parity),
        (origin_of(parity, pos_x(s, i)) - parity) / 2,
        (origin_of(parity, pos_y(s, i)) - parity) / 2,
        (origin_of(parity, pos_z(s, i)) - parity) / 2,
    )
}

/// Which of the eight cells of its covering block the cell at flat index
/// `i` is.
pub open spec fn cell_offset(s: int, parity: int, i: int) -> int {
    4 * (pos_x(s, i) - origin_of(parity, pos_x(s, i))) + 2 * (pos_y(s, i) - origin_of(
        parity,
        pos_y(s, i),
    )) + (pos_z(s, i) - origin_of(parity, pos_z(s, i)))
}

/// Facts about one axis of a block at block-grid coordinate `b`: its origin
/// coordinate `o = parity + 2b` and `o + 1` are both covered, both have
/// origin `o`, and stay within the grid.
proof fn lemma_origin_cover(parity: int, s: int, b: int)
    requires
        parity == 0 || parity == 1,
        valid_size(s),
        0 <= b < half_count(s, parity),
    ensures
        ({
            let o = parity + 2 * b;
            &&& covered(parity, s, o)
            &&& covered(parity, s, o + 1)
            &&& origin_of(parity, o) == o
            &&& origin_of(parity, o + 1) == o
            &&& (o - parity) / 2 == b
            &&& 0 <= o
            &&& o + 1 < s
        }),
{
    let o = parity + 2 * b;
    let h = half_count(s, parity);
    assert(s == 2 * (s / 2)) by {
        lemma_fundamental_div_mod_converse_div(s, 2, s / 2, s % 2);
    }
    assert(2 * h == s - 2 * parity) by {
        lemma_fundamental_div_mod_converse_div(s - 2 * parity, 2, (s - 2 * parity) / 2, 0);
    }
    assert(o % 2 == parity && o / 2 == b + if parity == 1 { 0int } else { 0int }) by {
        lemma_fundamental_div_mod_converse_div(o, 2, b, parity);
        lemma_fundamental_div_mod_converse_mod(o, 2, b, parity);
    }
    assert((o + 1) % 2 == 1 - parity && (o + 1) / 2 == b + parity) by {
        if parity == 0 {
            lemma_fundamental_div_mod_converse_div(o + 1, 2, b, 1);
            lemma_fundamental_div_mod_converse_mod(o + 1, 2, b, 1);
        } else {
            lemma_fundamental_div_mod_converse_div(o + 1, 2, b + 1, 0);
            lemma_fundamental_div_mod_converse_mod(o + 1, 2, b + 1, 0);
        }
    }
    assert((o - parity) / 2 == b) by {
        lemma_fundamental_div_mod_converse_div(o - parity, 2, b, 0);
    }
}

/// Facts about one axis of a covered coordinate `c`: its origin is a block
/// origin at block-grid coordinate `(o - parity) / 2`, and `c` is `o` or
/// `o + 1`.
proof fn lemma_cover_origin(parity: int, s: int, c: int)
    requires
        parity == 0 || parity == 1,
        valid_size(s),
        covered(parity, s, c),
    ensures
        ({
            let o = origin_of(parity, c);
            &&& o <= c <= o + 1
            &&& 0 <= (o - parity) / 2 < half_count(s, parity)
            &&& o == parity + 2 * ((o - parity) / 2)
        }),
{
    let o = origin_of(parity, c);
    let h = half_count(s, parity);
    assert(s == 2 * (s / 2)) by {
        lemma_fundamental_div_mod_converse_div(s, 2, s / 2, s % 2);
    }
    assert(2 * h == s - 2 * parity) by {
        lemma_fundamental_div_mod_converse_div(s - 2 * parity, 2, (s - 2 * parity) / 2, 0);
    }
    vstd::arithmetic::div_mod::lemma_fundamental_div_mod(c, 2);
    vstd::arithmetic::div_mod::lemma_mod_division_less_than_divisor(c, 2);
    if parity == 0 {
        // o == 2 * (c / 2), c == o + c % 2
        assert((o - 0) / 2 == c / 2) by {
            lemma_fundamental_div_mod_converse_div(o, 2, c / 2, 0);
        }
        assert(c / 2 < h) by {
            assert(c <= 2 * h - 1);
            assert(c / 2 <= (2 * h - 1) / 2) by {
                vstd::arithmetic::div_mod::lemma_div_is_ordered(c, 2 * h - 1, 2);
            }
            assert((2 * h - 1) / 2 == h - 1) by {
                lemma_fundamental_div_mod_converse_div(2 * h - 1, 2, h - 1, 1);
            }
        }
        assert(0 <= c / 2) by {
            lemma_div_pos_is_pos(c, 2);
        }
    } else {
        if c % 2 == 1 {
            // o == c, odd
            assert((o - 1) / 2 == c / 2) by {
                lemma_fundamental_div_mod_converse_div(o - 1, 2, c / 2, 0);
            }
            assert(c <= s - 3);
            assert(c / 2 <= h - 1) by {
                vstd::arithmetic::div_mod::lemma_div_is_ordered(c, 2 * h - 1, 2);
                lemma_fundamental_div_mod_converse_div(2 * h - 1, 2, h - 1, 1);
            }
            assert(0 <= c / 2) by {
                lemma_div_pos_is_pos(c, 2);
            }
        } else {
            // o == c - 1, c even, c >= 2
            assert((o - 1) / 2 == c / 2 - 1) by {
                lemma_fundamental_div_mod_converse_div(o - 1, 2, c / 2 - 1, 0);
            }
            assert(c / 2 <= h) by {
                vstd::arithmetic::div_mod::lemma_div_is_ordered(c, 2 * h, 2);
                lemma_fundamental_div_mod_converse_div(2 * h, 2, h, 0);
            }
            assert(1 <= c / 2) by {
                vstd::arithmetic::div_mod::lemma_div_is_ordered(2, c, 2);
            }
        }
    }
}

/// Decomposition of a block cell number `k` into its three axis offsets.
proof fn lemma_offset_decompose(k: int)
    requires
        0 <= k < 8,
    ensures
        k == 4 * (k / 4) + 2 * ((k / 2) % 2) + k % 2,
        0 <= k / 4 <= 1,
        0 <= (k / 2) % 2 <= 1,
        0 <= k % 2 <= 1,
{
    vstd::arithmetic::div_mod::lemma_fundamental_div_mod(k, 2);
    vstd::arithmetic::div_mod::lemma_mod_division_less_than_divisor(k, 2);
    vstd::arithmetic::div_mod::lemma_fundamental_div_mod(k / 2, 2);
    vstd::arithmetic::div_mod::lemma_mod_division_less_than_divisor(k / 2, 2);
    lemma_div_pos_is_pos(k, 2);
    lemma_div_pos_is_pos(k / 2, 2);
    assert((k / 2) / 2 == k / 4) by {
        vstd::arithmetic::div_mod::lemma_div_denominator(k, 2, 2);
    }
    assert(k / 4 <= 1 && (k / 2) <= 3) by {
        vstd::arithmetic::div_mod::lemma_div_is_ordered(k, 7, 4);
        vstd::arithmetic::div_mod::lemma_div_is_ordered(k, 7, 2);
        lemma_div_pos_is_pos(k, 4);
    }
}

/// Facts about cell `k` of the block at block-grid position
/// `(bx, by, bz)`: where it lies, that it is active, and that its rank and
/// offset recover `(bx, by, bz)` and `k`.
proof fn lemma_block_cell_facts(s: int, parity: int, bx: int, by: int, bz: int, k: int)
    requires
        parity == 0 || parity == 1,
        valid_size(s),
        0 <= bx < half_count(s, parity),
        0 <= by < half_count(s, parity),
        0 <= bz < half_count(s, parity),
        0 <= k < 8,
    ensures
        ({
            let ox = parity + 2 * bx;
            let oy = parity + 2 * by;
            let oz = parity + 2 * bz;
            let j = block_cell(s, ox, oy, oz, k);
            &&& 0 <= j < s * s * s
            &&& pos_x(s, j) == ox + k / 4
            &&& pos_y(s, j) == oy + (k / 2) % 2
            &&& pos_z(s, j) == oz + k % 2
            &&& cell_active(s, parity, j)
            &&& block_rank(s, parity, j) == flat_idx(half_count(s, parity), bx, by, bz)
            &&& cell_offset(s, parity, j) == k
            &&& origin_of(parity, pos_x(s, j)) == ox
            &&& origin_of(parity, pos_y(s, j)) == oy
            &&& origin_of(parity, pos_z(s, j)) == oz
        }),
{
    lemma_origin_cover(parity, s, bx);
    lemma_origin_cover(parity, s, by);
    lemma_origin_cover(parity, s, bz);
    lemma_offset_decompose(k);
    let ox = parity + 2 * bx;
    let oy = parity + 2 * by;
    let oz = parity + 2 * bz;
    let cx = ox + k / 4;
    let cy = oy + (k / 2) % 2;
    let cz = oz + k % 2;
    lemma_flat_idx_bounds(s, cx, cy, cz);
    lemma_pos_of_flat(s, cx, cy, cz);
    assert(origin_of(parity, cx) == ox && origin_of(parity, cy) == oy && origin_of(parity, cz)
        == oz);
}

/// Every active cell is one of the eight cells of the block its origin
/// names, its offset is within 0..8, and its rank is the flat index of a
/// valid block-grid position.
proof fn lemma_active_cell_in_block(s: int, parity: int, i: int)
    requires
        parity == 0 || parity == 1,
        valid_size(s),
        0 <= i < s * s * s,
        cell_active(s, parity, i),
    ensures
        ({
            let ox = origin_of(parity, pos_x(s, i));
            let oy = origin_of(parity, pos_y(s, i));
            let oz = origin_of(parity, pos_z(s, i));
            let h = half_count(s, parity);
            &&& 0 <= (ox - parity) / 2 < h
            &&& 0 <= (oy - parity) / 2 < h
            &&& 0 <= (oz - parity) / 2 < h
            &&& ox == parity + 2 * ((ox - parity) / 2)
            &&& oy == parity + 2 * ((oy - parity) / 2)
            &&& oz == parity + 2 * ((oz - parity) / 2)
            &&& 0 <= cell_offset(s, parity, i) < 8
            &&& i == block_cell(s, ox, oy, oz, cell_offset(s, parity, i))
            &&& 0 <= block_rank(s, parity, i) < h * h * h
        }),
{
    lemma_flat_of_pos(s, i);
    let px = pos_x(s, i);
    let py = pos_y(s, i);
    let pz = pos_z(s, i);
    lemma_cover_origin(parity, s, px);
    lemma_cover_origin(parity, s, py);
    lemma_cover_origin(parity, s, pz);
    let ox = origin_of(parity, px);
    let oy = origin_of(parity, py);
    let oz = origin_of(parity, pz);
    let dx = px - ox;
    let dy = py - oy;
    let dz = pz - oz;
    let k = 4 * dx + 2 * dy + dz;
    assert(k / 4 == dx && k % 2 == dz && (k / 2) % 2 == dy) by {
        lemma_fundamental_div_mod_converse_div(k, 4, dx, 2 * dy + dz);
        lemma_fundamental_div_mod_converse_mod(k, 2, 2 * dx + dy, dz);
        lemma_fundamental_div_mod_converse_div(k, 2, 2 * dx + dy, dz);
        lemma_fundamental_div_mod_converse_mod(2 * dx + dy, 2, dx, dy);
    }
    assert(block_cell(s, ox, oy, oz, k) == flat_idx(s, px, py, pz));
    let h = half_count(s, parity);
    lemma_flat_idx_bounds(h, (ox - parity) / 2, (oy - parity) / 2, (oz - parity) / 2);
}

/// An active cell whose rank names the block at block-grid position
/// `(bx, by, bz)` really lies in that block: its origins are that block's,
/// and it is that block's cell number `cell_offset`.
proof fn lemma_rank_determines_origin(s: int, parity: int, i: int, bx: int, by: int, bz: int)
    requires
        parity == 0 || parity == 1,
        valid_size(s),
        0 <= i < s * s * s,
        cell_active(s, parity, i),
        0 <= bx < half_count(s, parity),
        0 <= by < half_count(s, parity),
        0 <= bz < half_count(s, parity),
        block_rank(s, parity, i) == flat_idx(half_count(s, parity), bx, by, bz),
    ensures
        origin_of(parity, pos_x(s, i)) == parity + 2 * bx,
        origin_of(parity, pos_y(s, i)) == parity + 2 * by,
        origin_of(parity, pos_z(s, i)) == parity + 2 * bz,
        0 <= cell_offset(s, parity, i) < 8,
        i == block_cell(
            s,
            parity + 2 * bx,
            parity + 2 * by,
            parity + 2 * bz,
            cell_offset(s, parity, i),
        ),
{
    lemma_active_cell_in_block(s, parity, i);
    let h = half_count(s, parity);
    let ax = (origin_of(parity, pos_x(s, i)) - parity) / 2;
    let ay = (origin_of(parity, pos_y(s, i)) - parity) / 2;
    let az = (origin_of(parity, pos_z(s, i)) - parity) / 2;
    lemma_pos_of_flat(h, bx, by, bz);
    lemma_pos_of_flat(h, ax, ay, az);
    assert(ax == bx && ay == by && az == bz);
}

/// The gas count of a block prefix lies between 0 and the prefix length.
proof fn lemma_gas_count_bounds(a: Seq<Atom>, s: int, ox: int, oy: int, oz: int, k: nat)
    ensures
        0 <= block_gas_count(a, s, ox, oy, oz, k) <= k,
    decreases k,
{
    if k > 0 {
        lemma_gas_count_bounds(a, s, ox, oy, oz, (k - 1) as nat);
    }
}

/// A block holding at least one gas cell has a positive gas count.
proof fn lemma_gas_count_pos(a: Seq<Atom>, s: int, ox: int, oy: int, oz: int, kk: int, k: nat)
    requires
        0 <= kk < k,
        a[block_cell(s, ox, oy, oz, kk)].variant == AtomVariant::Gas,
    ensures
        block_gas_count(a, s, ox, oy, oz, k) >= 1,
    decreases k,
{
    if kk == k - 1 {
        lemma_gas_count_bounds(a, s, ox, oy, oz, (k - 1) as nat);
    } else {
        lemma_gas_count_pos(a, s, ox, oy, oz, kk, (k - 1) as nat);
    }
}

/// A block's prefix gas-pressure sum is non-negative and at most the prefix
/// gas count times the pressure bound, over well-formed cells.
proof fn lemma_block_sums_bounds(
    a: Seq<Atom>,
    s: int,
    parity: int,
    bx: int,
    by: int,
    bz: int,
    k: nat,
)
    requires
        parity == 0 || parity == 1,
        valid_size(s),
        0 <= bx < half_count(s, parity),
        0 <= by < half_count(s, parity),
        0 <= bz < half_count(s, parity),
        a.len() == s * s * s,
        forall|j: int| 0 <= j < a.len() ==> wf_atom(#[trigger] a[j]),
        k <= 8,
    ensures
        0 <= block_pres_sum(a, s, parity + 2 * bx, parity + 2 * by, parity + 2 * bz, k)
            <= block_gas_count(a, s, parity + 2 * bx, parity + 2 * by, parity + 2 * bz, k) * (
        P_MAX as int),
    decreases k,
{
    if k > 0 {
        lemma_block_sums_bounds(a, s, parity, bx, by, bz, (k - 1) as nat);
        lemma_block_cell_facts(s, parity, bx, by, bz, k - 1);
    }
}

/// After the spread pass, a block's prefix gas count is unchanged and its
/// prefix gas-pressure sum is the prefix gas count times the block average.
proof fn lemma_block_sums_after_spread(
    a: Seq<Atom>,
    s: int,
    parity: int,
    bx: int,
    by: int,
    bz: int,
    k: nat,
)
    requires
        parity == 0 || parity == 1,
        valid_size(s),
        0 <= bx < half_count(s, parity),
        0 <= by < half_count(s, parity),
        0 <= bz < half_count(s, parity),
        a.len() == s * s * s,
        forall|j: int| 0 <= j < a.len() ==> wf_atom(#[trigger] a[j]),
        block_gas_count(a, s, parity + 2 * bx, parity + 2 * by, parity + 2 * bz, 8) > 0,
        k <= 8,
    ensures
        ({
            let ox = parity + 2 * bx;
            let oy = parity + 2 * by;
            let oz = parity + 2 * bz;
            let cnt = block_gas_count(a, s, ox, oy, oz, 8);
            let q = block_pres_sum(a, s, ox, oy, oz, 8) / cnt;
            let b = spread_all(a, s, parity);
            &&& block_gas_count(b, s, ox, oy, oz, k) == block_gas_count(a, s, ox, oy, oz, k)
            &&& block_pres_sum(b, s, ox, oy, oz, k) == block_gas_count(a, s, ox, oy, oz, k) * q
        }),
    decreases k,
{
    let ox = parity + 2 * bx;
    let oy = parity + 2 * by;
    let oz = parity + 2 * bz;
    let cnt = block_gas_count(a, s, ox, oy, oz, 8);
    let total = block_pres_sum(a, s, ox, oy, oz, 8);
    let q = total / cnt;
    let b = spread_all(a, s, parity);
    if k > 0 {
        lemma_block_sums_after_spread(a, s, parity, bx, by, bz, (k - 1) as nat);
        lemma_block_cell_facts(s, parity, bx, by, bz, k - 1);
        let j = block_cell(s, ox, oy, oz, k - 1);
        assert(b[j] == spread_cell(a, s, parity, j));
        if a[j].variant == AtomVariant::Gas {
            lemma_block_sums_bounds(a, s, parity, bx, by, bz, 8);
            lemma_gas_count_bounds(a, s, ox, oy, oz, 8);
            lemma_multiply_divide_le(total, cnt, P_MAX as int);
            lemma_div_pos_is_pos(total, cnt);
            assert(b[j].pres == q);
            let c0 = block_gas_count(a, s, ox, oy, oz, (k - 1) as nat);
            assert((c0 + 1) * q == c0 * q + q) by (nonlinear_arith);
        }
    }
}

/// Conservation within a block under the spread pass: with `cnt` gas cells
/// holding total pressure `total` before the pass, every gas cell of the
/// block holds exactly `total / cnt` afterwards, so the block's gas
/// pressure total becomes `cnt * (total / cnt)`: the total it held before,
/// less the integer-division remainder, which is smaller than `cnt`. Solid
/// and source cells of the block are untouched.
pub proof fn lemma_block_conservation(
    a: Seq<Atom>,
    s: int,
    parity: int,
    bx: int,
    by: int,
    bz: int,
)
    requires
        parity == 0 || parity == 1,
        valid_size(s),
        0 <= bx < half_count(s, parity),
        0 <= by < half_count(s, parity),
        0 <= bz < half_count(s, parity),
        a.len() == s * s * s,
        forall|j: int| 0 <= j < a.len() ==> wf_atom(#[trigger] a[j]),
        block_gas_count(a, s, parity + 2 * bx, parity + 2 * by, parity + 2 * bz, 8) > 0,
    ensures
        ({
            let ox = parity + 2 * bx;
            let oy = parity + 2 * by;
            let oz = parity + 2 * bz;
            let cnt = block_gas_count(a, s, ox, oy, oz, 8);
            let total = block_pres_sum(a, s, ox, oy, oz, 8);
            let b = spread_all(a, s, parity);
            &&& forall|kk: int|
                0 <= kk < 8 && a[#[trigger] block_cell(s, ox, oy, oz, kk)].variant
                    == AtomVariant::Gas ==> b[block_cell(s, ox, oy, oz, kk)].pres == total / cnt
            &&& forall|kk: int|
                0 <= kk < 8 && a[#[trigger] block_cell(s, ox, oy, oz, kk)].variant
                    != AtomVariant::Gas ==> b[block_cell(s, ox, oy, oz, kk)] == a[block_cell(
                    s,
                    ox,
                    oy,
                    oz,
                    kk,
                )]
            &&& block_pres_sum(b, s, ox, oy, oz, 8) == cnt * (total / cnt)
            &&& total - cnt < cnt * (total / cnt) <= total
        }),
{
    let ox = parity + 2 * bx;
    let oy = parity + 2 * by;
    let oz = parity + 2 * bz;
    let cnt = block_gas_count(a, s, ox, oy, oz, 8);
    let total = block_pres_sum(a, s, ox, oy, oz, 8);
    let q = total / cnt;
    let b = spread_all(a, s, parity);
    lemma_block_sums_bounds(a, s, parity, bx, by, bz, 8);
    lemma_gas_count_bounds(a, s, ox, oy, oz, 8);
    lemma_multiply_divide_le(total, cnt, P_MAX as int);
    lemma_div_pos_is_pos(total, cnt);
    assert forall|kk: int| 0 <= kk < 8 implies {
        &&& (a[#[trigger] block_cell(s, ox, oy, oz, kk)].variant == AtomVariant::Gas
            ==> b[block_cell(s, ox, oy, oz, kk)].pres == total / cnt)
        &&& (a[block_cell(s, ox, oy, oz, kk)].variant != AtomVariant::Gas ==> b[block_cell(
            s,
            ox,
            oy,
            oz,
            kk,
        )] == a[block_cell(s, ox, oy, oz, kk)])
    } by {
        lemma_block_cell_facts(s, parity, bx, by, bz, kk);
    }
    lemma_block_sums_after_spread(a, s, parity, bx, by, bz, 8);
    vstd::arithmetic::div_mod::lemma_fundamental_div_mod(total, cnt);
    vstd::arithmetic::div_mod::lemma_mod_division_less_than_divisor(total, cnt);
    assert(cnt * q <= total && total - cnt < cnt * q) by (nonlinear_arith)
        requires
            total == cnt * q + total % cnt,
            0 <= total % cnt < cnt,
    ;
}

/// Two different cell slots of one alignment's blocks are different cells:
/// a pass's blocks are pairwise disjoint, and each block's eight cells are
/// distinct, so no cell is averaged twice in one pass.
pub proof fn lemma_same_pass_blocks_disjoint(
    s: int,
    parity: int,
    bx1: int,
    by1: int,
    bz1: int,
    k1: int,
    bx2: int,
    by2: int,
    bz2: int,
    k2: int,
)
    requires
        parity == 0 || parity == 1,
        valid_size(s),
        0 <= bx1 < half_count(s, parity),
        0 <= by1 < half_count(s, parity),
        0 <= bz1 < half_count(s, parity),
        0 <= k1 < 8,
        0 <= bx2 < half_count(s, parity),
        0 <= by2 < half_count(s, parity),
        0 <= bz2 < half_count(s, parity),
        0 <= k2 < 8,
        bx1 != bx2 || by1 != by2 || bz1 != bz2 || k1 != k2,
    ensures
        block_cell(s, parity + 2 * bx1, parity + 2 * by1, parity + 2 * bz1, k1) != block_cell(
            s,
            parity + 2 * bx2,
            parity + 2 * by2,
            parity + 2 * bz2,
            k2,
        ),
{
    let h = half_count(s, parity);
    if block_cell(s, parity + 2 * bx1, parity + 2 * by1, parity + 2 * bz1, k1) == block_cell(
        s,
        parity + 2 * bx2,
        parity + 2 * by2,
        parity + 2 * bz2,
        k2,
    ) {
        lemma_block_cell_facts(s, parity, bx1, by1, bz1, k1);
        lemma_block_cell_facts(s, parity, bx2, by2, bz2, k2);
        lemma_pos_of_flat(h, bx1, by1, bz1);
        lemma_pos_of_flat(h, bx2, by2, bz2);
        assert(false);
    }
}

/// A spread pass touches only gas cells inside its own blocks: every other
/// cell keeps its exact value, and no cell's variant ever changes.
pub proof fn lemma_spread_touches_active_gas_only(a: Seq<Atom>, s: int, parity: int)
    ensures
        forall|i: int|
            0 <= i < a.len() && !(a[i].variant == AtomVariant::Gas && cell_active(s, parity, i))
                ==> #[trigger] spread_all(a, s, parity)[i] == a[i],
        forall|i: int|
            0 <= i < a.len() ==> #[trigger] spread_all(a, s, parity)[i].variant == a[i].variant,
{
}

/// The even-aligned and the odd-aligned pass never use the same block: an
/// even-aligned block origin coordinate is even, an odd-aligned one odd.
pub proof fn lemma_alignment_origins_differ(b1: int, b2: int)
    ensures
        0 + 2 * b1 != 1 + 2 * b2,
{
}

impl Grid {
    /// Phase C, the local-equilibrium spread: run the 2x2x2 block averaging
    /// pass of one checkerboard alignment (the even-aligned blocks, or with
    /// `odd_phase` the interior blocks shifted by one on every axis).
    /// Within every block of the pass the gas cells take the block's
    /// average gas pressure and velocity, each computed from the values the
    /// grid held before the pass; solid and source cells neither
    /// participate nor are overwritten, and cells outside the pass's blocks
    /// are untouched.
    pub fn spread_gas(&mut self, odd_phase: bool)
        requires
            old(self).wf(),
            valid_size(old(self).size as int),
        ensures
            final(self).wf(),
            final(self).size == old(self).size,
            final(self).step_counter == old(self).step_counter,
            final(self).atoms@ == spread_all(
                old(self).atoms@,
                old(self).size as int,
                if odd_phase {
                    1int
                } else {
                    0int
                },
            ),
    {
        let ghost parity: int = if odd_phase {
            1int
        } else {
            0int
        };
        let ghost a0 = old(self).atoms@;
        let s = self.size;
        let ghost si = s as int;
        let base: usize = if odd_phase {
            1
        } else {
            0
        };
        let h = (s - 2 * base) / 2;
        let ghost hi = h as int;
        proof {
            assert(hi == half_count(si, parity));
            assert(0 < hi * hi <= 1024 && 0 < (hi * hi) * hi <= 32768 && (hi * hi) * hi == hi * hi
                * hi) by (nonlinear_arith)
                requires
                    1 <= hi <= 32,
            ;
        }
        let nb = (h * h) * h;
        let n = self.atoms.len();
        let mut r: usize = 0;
        while r < nb
            invariant
                si == s as int,
                valid_size(si),
                s <= 64,
                parity == (if odd_phase {
                    1int
                } else {
                    0int
                }),
                base as int == parity,
                hi == h as int,
                hi == half_count(si, parity),
                1 <= hi <= 32,
                nb as int == hi * hi * hi,
                nb <= 32768,
                self.wf(),
                self.size == s,
                self.step_counter == old(self).step_counter,
                n == self.atoms@.len(),
                a0 == old(self).atoms@,
                n == a0.len(),
                n as int == si * si * si,
                forall|j: int| 0 <= j < n ==> wf_atom(#[trigger] a0[j]),
                0 <= r <= nb,
                forall|i: int|
                    0 <= i < n ==> #[trigger] self.atoms@[i] == (if a0[i].variant
                        == AtomVariant::Gas && cell_active(si, parity, i) && block_rank(
                        si,
                        parity,
                        i,
                    ) < r {
                        spread_cell(a0, si, parity, i)
                    } else {
                        a0[i]
                    }),
            decreases nb - r,
        {
            let ghost ri = r as int;
            proof {
                assert(0 < h * h <= 1024 && (h as int * h as int) * h as int == hi * hi
                    * hi) by (nonlinear_arith)
                    requires
                        1 <= h as int <= 32,
                        hi == h as int,
                ;
                lemma_flat_of_pos(hi, ri);
            }
            let bx = r / (h * h);
            let by = (r / h) % h;
            let bz = r % h;
            let ghost bxi = bx as int;
            let ghost byi = by as int;
            let ghost bzi = bz as int;
            proof {
                lemma_origin_cover(parity, si, bxi);
                lemma_origin_cover(parity, si, byi);
                lemma_origin_cover(parity, si, bzi);
            }
            let ox = base + 2 * bx;
            let oy = base + 2 * by;
            let oz = base + 2 * bz;
            let ghost oxi = ox as int;
            let ghost oyi = oy as int;
            let ghost ozi = oz as int;
            proof {
                assert forall|kk: int| 0 <= kk < 8 implies {
                    &&& 0 <= block_cell(si, oxi, oyi, ozi, kk) < n
                    &&& self.atoms@[block_cell(si, oxi, oyi, ozi, kk)] == a0[block_cell(
                        si,
                        oxi,
                        oyi,
                        ozi,
                        kk,
                    )]
                    &&& block_rank(si, parity, block_cell(si, oxi, oyi, ozi, kk)) == ri
                    &&& cell_offset(si, parity, block_cell(si, oxi, oyi, ozi, kk)) == kk
                    &&& cell_active(si, parity, block_cell(si, oxi, oyi, ozi, kk))
                    &&& origin_of(parity, pos_x(si, block_cell(si, oxi, oyi, ozi, kk))) == oxi
                    &&& origin_of(parity, pos_y(si, block_cell(si, oxi, oyi, ozi, kk))) == oyi
                    &&& origin_of(parity, pos_z(si, block_cell(si, oxi, oyi, ozi, kk))) == ozi
                } by {
                    lemma_block_cell_facts(si, parity, bxi, byi, bzi, kk);
                }
            }
            let ghost cur0 = self.atoms@;
            let mut cnt: u64 = 0;
            let mut ps: u64 = 0;
            let mut vx: i64 = 0;
            let mut vy: i64 = 0;
            let mut vz: i64 = 0;
            let mut k: usize = 0;
            while k < 8
                invariant
                    0 <= k <= 8,
                    si == s as int,
                    s <= 64,
                    valid_size(si),
                    oxi == ox as int,
                    oyi == oy as int,
                    ozi == oz as int,
                    oxi + 1 < si,
                    oyi + 1 < si,
                    ozi + 1 < si,
                    0 <= oxi,
                    0 <= oyi,
                    0 <= ozi,
                    n == self.atoms@.len(),
                    n as int == si * si * si,
                    n == a0.len(),
                    self.atoms@ == cur0,
                    forall|j: int| 0 <= j < n ==> wf_atom(#[trigger] a0[j]),
                    forall|kk: int|
                        0 <= kk < 8 ==> 0 <= #[trigger] block_cell(si, oxi, oyi, ozi, kk) < n
                            && self.atoms@[block_cell(si, oxi, oyi, ozi, kk)] == a0[block_cell(
                            si,
                            oxi,
                            oyi,
                            ozi,
                            kk,
                        )],
                    cnt == block_gas_count(a0, si, oxi, oyi, ozi, k as nat),
                    cnt <= k,
                    ps == block_pres_sum(a0, si, oxi, oyi, ozi, k as nat),
                    ps as int <= cnt as int * (P_MAX as int),
                    vx == block_vel_sum(a0, si, oxi, oyi, ozi, 0, k as nat),
                    -(cnt as int * (V_MAX as int)) <= vx as int <= cnt as int * (V_MAX as int),
                    vy == block_vel_sum(a0, si, oxi, oyi, ozi, 1, k as nat),
                    -(cnt as int * (V_MAX as int)) <= vy as int <= cnt as int * (V_MAX as int),
                    vz == block_vel_sum(a0, si, oxi, oyi, ozi, 2, k as nat),
                    -(cnt as int * (V_MAX as int)) <= vz as int <= cnt as int * (V_MAX as int),
                decreases 8 - k,
            {
                let dx = k / 4;
                let dy = (k / 2) % 2;
                let dz = k % 2;
                proof {
                    lemma_offset_decompose(k as int);
                }
                let cx = ox + dx;
                let cy = oy + dy;
                let cz = oz + dz;
                proof {
                    lemma_flat_idx_bounds(si, cx as int, cy as int, cz as int);
                    assert(flat_idx(si, cx as int, cy as int, cz as int) == block_cell(
                        si,
                        oxi,
                        oyi,
                        ozi,
                        k as int,
                    ));
                }
                let j = (cx * s + cy) * s + cz;
                let c = self.atoms[j];
                proof {
                    assert(c == a0[j as int]);
                    assert(wf_atom(c));
                }
                if c.variant == AtomVariant::Gas {
                    cnt = cnt + 1;
                    ps = ps + c.pres;
                    vx = vx + c.vel.x;
                    vy = vy + c.vel.y;
                    vz = vz + c.vel.z;
                }
                k = k + 1;
                proof {
                    assert(block_gas_count(a0, si, oxi, oyi, ozi, k as nat) == block_gas_count(
                        a0,
                        si,
                        oxi,
                        oyi,
                        ozi,
                        (k - 1) as nat,
                    ) + if a0[block_cell(si, oxi, oyi, ozi, k - 1)].variant == AtomVariant::Gas {
                        1int
                    } else {
                        0int
                    });
                    assert(block_pres_sum(a0, si, oxi, oyi, ozi, k as nat) == block_pres_sum(
                        a0,
                        si,
                        oxi,
                        oyi,
                        ozi,
                        (k - 1) as nat,
                    ) + if a0[block_cell(si, oxi, oyi, ozi, k - 1)].variant == AtomVariant::Gas {
                        a0[block_cell(si, oxi, oyi, ozi, k - 1)].pres as int
                    } else {
                        0int
                    });
                    assert forall|axis: int| 0 <= axis < 3 implies block_vel_sum(
                        a0,
                        si,
                        oxi,
                        oyi,
                        ozi,
                        axis,
                        k as nat,
                    ) == block_vel_sum(a0, si, oxi, oyi, ozi, axis, (k - 1) as nat) + if a0[block_cell(
                        si,
                        oxi,
                        oyi,
                        ozi,
                        k - 1,
                    )].variant == AtomVariant::Gas {
                        vel_axis(a0[block_cell(si, oxi, oyi, ozi, k - 1)], axis)
                    } else {
                        0int
                    } by {}
                }
            }
            if cnt > 0 {
                proof {
                    lemma_multiply_divide_le(ps as int, cnt as int, P_MAX as int);
                    lemma_div_pos_is_pos(ps as int, cnt as int);
                    lemma_div_trunc_bound(vx as int, cnt as int, V_MAX as int);
                    lemma_div_trunc_bound(vy as int, cnt as int, V_MAX as int);
                    lemma_div_trunc_bound(vz as int, cnt as int, V_MAX as int);
                }
                let ap = ps / cnt;
                let avx = div_trunc_i64(vx, cnt);
                let avy = div_trunc_i64(vy, cnt);
                let avz = div_trunc_i64(vz, cnt);
                let navm = Atom {
                    variant: AtomVariant::Gas,
                    pres: ap,
                    vel: IVec3 { x: avx, y: avy, z: avz },
                };
                proof {
                    assert(wf_atom(navm));
                }
                let mut k: usize = 0;
                while k < 8
                    invariant
                        0 <= k <= 8,
                        si == s as int,
                        s <= 64,
                        valid_size(si),
                        parity == (if odd_phase {
                            1int
                        } else {
                            0int
                        }),
                        hi == half_count(si, parity),
                        1 <= hi <= 32,
                        oxi == ox as int,
                        oyi == oy as int,
                        ozi == oz as int,
                        oxi == parity + 2 * bxi,
                        oyi == parity + 2 * byi,
                        ozi == parity + 2 * bzi,
                        0 <= bxi < hi,
                        0 <= byi < hi,
                        0 <= bzi < hi,
                        flat_idx(hi, bxi, byi, bzi) == ri,
                        self.wf(),
                        self.size == s,
                        self.step_counter == old(self).step_counter,
                        n == self.atoms@.len(),
                        a0 == old(self).atoms@,
                        n == a0.len(),
                        n as int == si * si * si,
                        forall|j: int| 0 <= j < n ==> wf_atom(#[trigger] a0[j]),
                        cnt == block_gas_count(a0, si, oxi, oyi, ozi, 8),
                        cnt > 0,
                        navm == (Atom {
                            variant: AtomVariant::Gas,
                            pres: (block_pres_sum(a0, si, oxi, oyi, ozi, 8) / cnt as int) as u64,
                            vel: IVec3 {
                                x: div_trunc(
                                    block_vel_sum(a0, si, oxi, oyi, ozi, 0, 8),
                                    cnt as int,
                                ) as i64,
                                y: div_trunc(
                                    block_vel_sum(a0, si, oxi, oyi, ozi, 1, 8),
                                    cnt as int,
                                ) as i64,
                                z: div_trunc(
                                    block_vel_sum(a0, si, oxi, oyi, ozi, 2, 8),
                                    cnt as int,
                                ) as i64,
                            },
                        }),
                        wf_atom(navm),
                        forall|i: int|
                            0 <= i < n ==> #[trigger] self.atoms@[i] == (if a0[i].variant
                                == AtomVariant::Gas && cell_active(si, parity, i) && (block_rank(
                                si,
                                parity,
                                i,
                            ) < ri || (block_rank(si, parity, i) == ri && cell_offset(
                                si,
                                parity,
                                i,
                            ) < k as int)) {
                                spread_cell(a0, si, parity, i)
                            } else {
                                a0[i]
                            }),
                    decreases 8 - k,
                {
                    let dx = k / 4;
                    let dy = (k / 2) % 2;
                    let dz = k % 2;
                    proof {
                        lemma_offset_decompose(k as int);
                        lemma_block_cell_facts(si, parity, bxi, byi, bzi, k as int);
                    }
                    let cx = ox + dx;
                    let cy = oy + dy;
                    let cz = oz + dz;
                    proof {
                        lemma_flat_idx_bounds(si, cx as int, cy as int, cz as int);
                        assert(flat_idx(si, cx as int, cy as int, cz as int) == block_cell(
                            si,
                            oxi,
                            oyi,
                            ozi,
                            k as int,
                        ));
                    }
                    let j = (cx * s + cy) * s + cz;
                    let ghost ji = j as int;
                    proof {
                        assert(self.atoms@[ji] == a0[ji]);
                    }
                    let ghost before = self.atoms@;
                    if self.atoms[j].variant == AtomVariant::Gas {
                        self.atoms.set(j, navm);
                        proof {
                            assert(spread_cell(a0, si, parity, ji) == navm);
                        }
                    }
                    k = k + 1;
                    proof {
                        assert forall|i: int| 0 <= i < n implies #[trigger] self.atoms@[i] == (
                        if a0[i].variant == AtomVariant::Gas && cell_active(si, parity, i) && (
                        block_rank(si, parity, i) < ri || (block_rank(si, parity, i) == ri
                            && cell_offset(si, parity, i) < k as int)) {
                            spread_cell(a0, si, parity, i)
                        } else {
                            a0[i]
                        }) by {
                            if i != ji && a0[i].variant == AtomVariant::Gas && cell_active(
                                si,
                                parity,
                                i,
                            ) && block_rank(si, parity, i) == ri && cell_offset(si, parity, i) == k
                                - 1 {
                                lemma_rank_determines_origin(si, parity, i, bxi, byi, bzi);
                                assert(i == block_cell(si, oxi, oyi, ozi, k - 1));
                                assert(false);
                            }
                        }
                    }
                }
                proof {
                    assert forall|i: int| 0 <= i < n implies #[trigger] self.atoms@[i] == (
                    if a0[i].variant == AtomVariant::Gas && cell_active(si, parity, i)
                        && block_rank(si, parity, i) < ri + 1 {
                        spread_cell(a0, si, parity, i)
                    } else {
                        a0[i]
                    }) by {
                        if a0[i].variant == AtomVariant::Gas && cell_active(si, parity, i)
                            && block_rank(si, parity, i) == ri {
                            lemma_active_cell_in_block(si, parity, i);
                        }
                    }
                }
            } else {
                proof {
                    assert forall|i: int| 0 <= i < n implies #[trigger] self.atoms@[i] == (
                    if a0[i].variant == AtomVariant::Gas && cell_active(si, parity, i)
                        && block_rank(si, parity, i) < ri + 1 {
                        spread_cell(a0, si, parity, i)
                    } else {
                        a0[i]
                    }) by {
                        if a0[i].variant == AtomVariant::Gas && cell_active(si, parity, i)
                            && block_rank(si, parity, i) == ri {
                            lemma_rank_determines_origin(si, parity, i, bxi, byi, bzi);
                            lemma_gas_count_pos(
                                a0,
                                si,
                                oxi,
                                oyi,
                                ozi,
                                cell_offset(si, parity, i),
                                8,
                            );
                            assert(false);
                        }
                    }
                }
            }
            r = r + 1;
        }
        proof {
            assert forall|i: int| 0 <= i < n implies #[trigger] self.atoms@[i] == spread_cell(
                a0,
                si,
                parity,
                i,
            ) by {
                if a0[i].variant == AtomVariant::Gas && cell_active(si, parity, i) {
                    lemma_active_cell_in_block(si, parity, i);
                }
            }
            assert(self.atoms@ =~= spread_all(a0, si, parity));
        }
    }
}

} // verus!
