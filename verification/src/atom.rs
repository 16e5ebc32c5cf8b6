//! Per-cell state: the atom variant, its pressure and its velocity, and the
//! momentum-weighted merge rule used whenever gas flows into a cell.

use vstd::prelude::*;

verus! {

/// Largest pressure a cell may hold. Merges saturate here so that all
/// arithmetic stays far away from the machine limits.
pub const P_MAX: u64 = 1_000_000_000;

/// Largest magnitude of a velocity component; merges clamp here.
pub const V_MAX: i64 = 1_000_000_000;

/// A grid position. Every coordinate is an index into the grid, within
/// `[0, size)` on its axis.
#[derive(Clone, Copy, PartialEq, Eq, Structural, Debug)]
pub struct UVec3 {
    pub x: usize,
    pub y: usize,
    pub z: usize,
}

/// An integer vector: a velocity (for gas cells) or an emission direction
/// (for gas sources).
#[derive(Clone, Copy, PartialEq, Eq, Structural, Debug)]
pub struct IVec3 {
    pub x: i64,
    pub y: i64,
    pub z: i64,
}

impl UVec3 {
    pub fn new(x: usize, y: usize, z: usize) -> (r: UVec3)
        ensures
            r == (UVec3 { x, y, z }),
    {
        UVec3 { x, y, z }
    }
}

impl IVec3 {
    pub fn new(x: i64, y: i64, z: i64) -> (r: IVec3)
        ensures
            r == (IVec3 { x, y, z }),
    {
        IVec3 { x, y, z }
    }

    /// The zero vector.
    pub fn zero() -> (r: IVec3)
        ensures
            r == IVec3::zero_spec(),
    {
        IVec3 { x: 0, y: 0, z: 0 }
    }

    pub open spec fn zero_spec() -> IVec3 {
        IVec3 { x: 0, y: 0, z: 0 }
    }
}

/// The discrete kind of a cell.
#[derive(Clone, Copy, PartialEq, Eq, Structural, Debug)]
pub enum AtomVariant {
    Solid,
    Gas,
    GasSource,
}

/// One cell's state. For a `Gas` cell `vel` is its velocity; for a
/// `GasSource` cell `vel` is the emission direction, a unit axis vector.
#[derive(Clone, Copy, PartialEq, Eq, Structural, Debug)]
pub struct Atom {
    pub variant: AtomVariant,
    pub pres: u64,
    pub vel: IVec3,
}

/// A vector that points to a face neighbour: exactly one component is 1 or
/// -1 and the others are 0.
pub open spec fn unit_axis(v: IVec3) -> bool {
    abs_i(v.x as int) + abs_i(v.y as int) + abs_i(v.z as int) == 1
}

pub open spec fn abs_i(x: int) -> int {
    if x < 0 {
        -x
    } else {
        x
    }
}

/// Well-formedness of one cell: pressure and velocity within the saturation
/// bounds, and a gas source's direction a unit axis vector.
pub open spec fn wf_atom(a: Atom) -> bool {
    &&& a.pres <= P_MAX
    &&& -V_MAX <= a.vel.x <= V_MAX
    &&& -V_MAX <= a.vel.y <= V_MAX
    &&& -V_MAX <= a.vel.z <= V_MAX
    &&& (a.variant == AtomVariant::GasSource ==> unit_axis(a.vel))
}

impl Atom {
    /// A gas cell with zero pressure and zero velocity.
    pub fn gas() -> (r: Atom)
        ensures
            r == Atom::gas_spec(),
            wf_atom(r),
    {
        Atom { variant: AtomVariant::Gas, pres: 0, vel: IVec3 { x: 0, y: 0, z: 0 } }
    }

    pub open spec fn gas_spec() -> Atom {
        Atom { variant: AtomVariant::Gas, pres: 0, vel: IVec3::zero_spec() }
    }

    /// A solid cell.
    pub fn solid() -> (r: Atom)
        ensures
            r == (Atom { variant: AtomVariant::Solid, pres: 0, vel: IVec3::zero_spec() }),
            wf_atom(r),
    {
        Atom { variant: AtomVariant::Solid, pres: 0, vel: IVec3 { x: 0, y: 0, z: 0 } }
    }

    /// A gas source emitting towards the face neighbour in direction `dir`.
    pub fn gas_source(dir: IVec3) -> (r: Atom)
        requires
            unit_axis(dir),
        ensures
            r == (Atom { variant: AtomVariant::GasSource, pres: 0, vel: dir }),
            wf_atom(r),
    {
        Atom { variant: AtomVariant::GasSource, pres: 0, vel: dir }
    }
}

/// Pressure addition, saturated at `P_MAX`.
pub open spec fn cap_p(p: int) -> int {
    if p > P_MAX {
        P_MAX as int
    } else {
        p
    }
}

/// Velocity component, clamped to `[-V_MAX, V_MAX]`.
pub open spec fn clamp_v(v: int) -> int {
    if v > V_MAX {
        V_MAX as int
    } else if v < -V_MAX {
        -V_MAX as int
    } else {
        v
    }
}

/// The momentum-weighted merge of two gas cells: the pressures add and the
/// velocity is the pressure-weighted sum of the two velocities (not divided
/// by the total pressure), each component saturated at its bound.
pub open spec fn sum_gas_spec(a: Atom, b: Atom) -> Atom {
    Atom {
        variant: AtomVariant::Gas,
        pres: cap_p(a.pres + b.pres) as u64,
        vel: IVec3 {
            x: clamp_v(a.vel.x * a.pres + b.vel.x * b.pres) as i64,
            y: clamp_v(a.vel.y * a.pres + b.vel.y * b.pres) as i64,
            z: clamp_v(a.vel.z * a.pres + b.vel.z * b.pres) as i64,
        },
    }
}

/// Merge gas cell `b` into gas cell `a`: resulting pressure is the sum of
/// the two pressures and the resulting velocity the pressure-weighted sum
/// of the two velocities, saturated at the cell bounds.
pub fn sum_gas(a: &Atom, b: &Atom) -> (r: Atom)
    requires
        wf_atom(*a),
        wf_atom(*b),
        a.variant == AtomVariant::Gas,
        b.variant == AtomVariant::Gas,
    ensures
        r == sum_gas_spec(*a, *b),
        wf_atom(r),
{
    let pres = if a.pres + b.pres > P_MAX {
        P_MAX
    } else {
        a.pres + b.pres
    };
    let vel = IVec3 {
        x: weighted_component(a.vel.x, a.pres, b.vel.x, b.pres),
        y: weighted_component(a.vel.y, a.pres, b.vel.y, b.pres),
        z: weighted_component(a.vel.z, a.pres, b.vel.z, b.pres),
    };
    Atom { variant: AtomVariant::Gas, pres, vel }
}

/// One component of the pressure-weighted velocity sum, clamped.
fn weighted_component(va: i64, pa: u64, vb: i64, pb: u64) -> (r: i64)
    requires
        -V_MAX <= va <= V_MAX,
        -V_MAX <= vb <= V_MAX,
        pa <= P_MAX,
        pb <= P_MAX,
    ensures
        r == clamp_v(va * pa + vb * pb),
{
    proof {
        assert(-(V_MAX * P_MAX) <= va * pa <= V_MAX * P_MAX) by (nonlinear_arith)
            requires
                -V_MAX <= va <= V_MAX,
                0 <= pa <= P_MAX,
        ;
        assert(-(V_MAX * P_MAX) <= vb * pb <= V_MAX * P_MAX) by (nonlinear_arith)
            requires
                -V_MAX <= vb <= V_MAX,
                0 <= pb <= P_MAX,
        ;
    }
    let s = va * (pa as i64) + vb * (pb as i64);
    if s > V_MAX {
        V_MAX
    } else if s < -V_MAX {
        -V_MAX
    } else {
        s
    }
}

/// Momentum-weighted merge correctness, stated without the saturated
/// inputs: when the summed pressure and each weighted velocity component
/// stay within the cell bounds, the merge yields exactly pressure
/// `p1 + p2` and velocity `v1*p1 + v2*p2`.
pub proof fn lemma_sum_gas_exact(a: Atom, b: Atom)
    requires
        a.pres + b.pres <= P_MAX,
        -V_MAX <= a.vel.x * a.pres + b.vel.x * b.pres <= V_MAX,
        -V_MAX <= a.vel.y * a.pres + b.vel.y * b.pres <= V_MAX,
        -V_MAX <= a.vel.z * a.pres + b.vel.z * b.pres <= V_MAX,
    ensures
        sum_gas_spec(a, b).pres == a.pres + b.pres,
        sum_gas_spec(a, b).vel.x == a.vel.x * a.pres + b.vel.x * b.pres,
        sum_gas_spec(a, b).vel.y == a.vel.y * a.pres + b.vel.y * b.pres,
        sum_gas_spec(a, b).vel.z == a.vel.z * a.pres + b.vel.z * b.pres,
        sum_gas_spec(a, b).variant == AtomVariant::Gas,
{
}

} // verus!
