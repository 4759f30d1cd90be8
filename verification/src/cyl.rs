//! Cylindrical mesh tallies.
//!
//! A mesh is described by a header of seven values (origin, cells along the
//! radius, the angle and the axis, and whether the angle closes) followed by the
//! radii, the squared radii, the angles and the heights of its cell faces.
use crate::ieee::{order_is_numeric, strictly_increasing, Real};
use crate::mesh::{crossed_length, is_scored, Crossing, NEVER_BITS, SHORTEST_BITS};
use vstd::prelude::*;

verus! {

/// Values of the header.
pub const CYL_HEADER: usize = 7;

/// Bit pattern of `0.5`.
pub const HALF_BITS: u64 = 0x3fe0_0000_0000_0000;

/// Bit pattern of the smallest slope (`1e-14`) that is not parallel.
pub const PARALLEL_BITS: u64 = 0x3d06_849b_86a1_2b9b;

/// Cells of the mesh, and where the face tables start.
#[derive(Clone, Copy, Debug)]
pub struct CylShape {
    pub nr: u32,
    pub nphi: u32,
    pub nz: u32,
    /// The angular cells cover the full turn.
    pub full_phi: bool,
    pub r_off: usize,
    pub rsq_off: usize,
    pub phi_off: usize,
    pub z_off: usize,
}

impl CylShape {
    pub open spec fn voxels(self) -> int {
        self.nr * self.nphi * self.nz
    }

    /// The tables lie inside the parameters and are strictly increasing.
    pub open spec fn wf(self, params: Seq<Real>) -> bool {
        &&& self.nr >= 1 && self.nphi >= 1 && self.nz >= 1
        &&& self.voxels() <= u32::MAX
        &&& self.rsq_off == self.r_off + self.nr + 1
        &&& self.phi_off == self.rsq_off + self.nr + 1
        &&& self.z_off == self.phi_off + self.nphi + 1
        &&& self.z_off + self.nz + 1 <= params.len()
        &&& params.len() <= usize::MAX
        &&& strictly_increasing(self.radii(params))
        &&& strictly_increasing(self.angles(params))
        &&& strictly_increasing(self.heights(params))
    }

    pub open spec fn radii(self, params: Seq<Real>) -> Seq<Real> {
        params.subrange(self.r_off as int, self.r_off + self.nr + 1)
    }

    pub open spec fn angles(self, params: Seq<Real>) -> Seq<Real> {
        params.subrange(self.phi_off as int, self.phi_off + self.nphi + 1)
    }

    pub open spec fn heights(self, params: Seq<Real>) -> Seq<Real> {
        params.subrange(self.z_off as int, self.z_off + self.nz + 1)
    }
}

/// Reads the header at `mo`.
pub fn cyl_shape(params: &[Real], mo: usize) -> (r: CylShape)
    requires
        mo + CYL_HEADER <= params.len(),
        mo + CYL_HEADER + 2 * (params@[mo + 3].to_u32_spec() + 1) + params@[mo + 4].to_u32_spec()
            + 1 <= usize::MAX,
    ensures
        r.nr == params@[mo + 3].to_u32_spec(),
        r.nphi == params@[mo + 4].to_u32_spec(),
        r.nz == params@[mo + 5].to_u32_spec(),
        r.full_phi == (Real { bits: HALF_BITS }).lt(params@[mo + 6]),
        r.r_off == mo + CYL_HEADER,
        r.rsq_off == r.r_off + r.nr + 1,
        r.phi_off == r.rsq_off + r.nr + 1,
        r.z_off == r.phi_off + r.nphi + 1,
{
    let nr: u32 = params[mo + 3].to_u32();
    let nphi: u32 = params[mo + 4].to_u32();
    let nz: u32 = params[mo + 5].to_u32();
    let r_off: usize = mo + CYL_HEADER;
    let rsq_off: usize = r_off + nr as usize + 1;
    let phi_off: usize = rsq_off + nr as usize + 1;
    let z_off: usize = phi_off + nphi as usize + 1;
    CylShape {
        nr,
        nphi,
        nz,
        full_phi: Real::new(HALF_BITS).is_lt(params[mo + 6]),
        r_off,
        rsq_off,
        phi_off,
        z_off,
    }
}

/// Cell `i` of a face table holds `v`: its lower face included, its upper face
/// not.
pub open spec fn in_cell(grid: Seq<Real>, i: int, v: Real) -> bool {
    0 <= i < grid.len() - 1 && grid[i].le(v) && v.lt(grid[i + 1])
}

/// Cell of a value in the `n` cells whose faces start at `off`; `n` when the
/// value is outside.
pub fn cyl_bracket(params: &[Real], off: usize, n: u32, v: Real) -> (r: u32)
    requires
        n >= 1,
        off + n + 1 <= params.len(),
        strictly_increasing(params@.subrange(off as int, off + n + 1)),
    ensures
        r <= n,
        r < n ==> in_cell(params@.subrange(off as int, off + n + 1), r as int, v),
        r == n <==> !(params@[off as int].le(v) && v.lt(params@[off + n])),
{
    let ghost g = params@.subrange(off as int, off + n + 1);
    assert(g[0] == params@[off as int]);
    assert(g[n as int] == params@[off + n]);
    if !(params[off].is_le(v) && v.is_lt(params[off + n as usize])) {
        return n;
    }
    let mut i: u32 = 0;
    while i + 1 < n && params[off + i as usize + 1].is_le(v)
        invariant
            i < n,
            off + n + 1 <= params.len(),
            g == params@.subrange(off as int, off + n + 1),
            g[i as int].le(v),
        decreases n - i,
    {
        assert(g[i + 1] == params@[off + i + 1]);
        i = i + 1;
    }
    assert(g[i + 1] == params@[off + i + 1]);
    assert(!g[i + 1].is_nan_spec());
    i
}

/// A value lies in at most one cell.
pub proof fn cells_are_disjoint(grid: Seq<Real>, i: int, j: int, v: Real)
    requires
        strictly_increasing(grid),
        in_cell(grid, i, v),
        in_cell(grid, j, v),
    ensures
        i == j,
{
    if i < j {
        assert(grid[i + 1].key() <= grid[j].key()) by {
            if i + 1 < j {
                assert(grid[i + 1].key() < grid[j].key());
            }
        }
    }
    if j < i {
        assert(grid[j + 1].key() <= grid[i].key()) by {
            if j + 1 < i {
                assert(grid[j + 1].key() < grid[i].key());
            }
        }
    }
}

/// A point in the mesh frame: distance from the axis, angle in `[0, 2pi)`,
/// height, and the largest angle below the last face of a closed mesh.
#[derive(Clone, Copy, Debug)]
pub struct Probe {
    pub rho: Real,
    pub phi: Real,
    pub phi_top: Real,
    pub z: Real,
}

/// Cell numbers of a point.
#[derive(Clone, Copy, Debug)]
pub struct CylCell {
    pub ir: u32,
    pub iphi: u32,
    pub iz: u32,
}

/// Angle used for the lookup: rounding past the last face of a closed mesh
/// falls back just below it.
pub open spec fn lookup_angle(shape: CylShape, params: Seq<Real>, p: Probe) -> Real {
    if shape.full_phi && params[shape.phi_off + shape.nphi].le(p.phi) {
        p.phi_top
    } else {
        p.phi
    }
}

/// On the axis every angle is the same, and the first angular cell is used.
pub open spec fn on_axis(p: Probe) -> bool {
    !(Real { bits: PARALLEL_BITS }).le(p.rho)
}

/// The cell holds the point.
pub open spec fn cell_holds(shape: CylShape, params: Seq<Real>, c: CylCell, p: Probe) -> bool {
    &&& in_cell(shape.radii(params), c.ir as int, p.rho)
    &&& in_cell(shape.heights(params), c.iz as int, p.z)
    &&& if on_axis(p) {
        c.iphi == 0
    } else {
        in_cell(shape.angles(params), c.iphi as int, lookup_angle(shape, params, p))
    }
}

/// Values between the ends of a face table.
pub open spec fn in_range(grid: Seq<Real>, v: Real) -> bool {
    grid[0].le(v) && v.lt(grid[grid.len() - 1])
}

/// The point is inside the mesh.
pub open spec fn inside(shape: CylShape, params: Seq<Real>, p: Probe) -> bool {
    &&& in_range(shape.radii(params), p.rho)
    &&& in_range(shape.heights(params), p.z)
    &&& on_axis(p) || in_range(shape.angles(params), lookup_angle(shape, params, p))
}

/// Cell of a point, or `None` outside the mesh.
pub fn cyl_indices(params: &[Real], shape: CylShape, p: Probe) -> (r: Option<CylCell>)
    requires
        shape.wf(params@),
    ensures
        r is Some <==> inside(shape, params@, p),
        r matches Some(c) ==> c.ir < shape.nr && c.iphi < shape.nphi && c.iz < shape.nz
            && cell_holds(shape, params@, c, p),
{
    let ir: u32 = cyl_bracket(params, shape.r_off, shape.nr, p.rho);
    let iz: u32 = cyl_bracket(params, shape.z_off, shape.nz, p.z);
    let ghost radii = shape.radii(params@);
    let ghost heights = shape.heights(params@);
    let ghost angles = shape.angles(params@);
    assert(radii[0] == params@[shape.r_off as int] && radii[shape.nr as int] == params@[shape.r_off
        + shape.nr]);
    assert(heights[0] == params@[shape.z_off as int] && heights[shape.nz as int]
        == params@[shape.z_off + shape.nz]);
    assert(angles[0] == params@[shape.phi_off as int] && angles[shape.nphi as int]
        == params@[shape.phi_off + shape.nphi]);
    if ir >= shape.nr || iz >= shape.nz {
        return None;
    }
    let mut iphi: u32 = 0;
    if Real::new(PARALLEL_BITS).is_le(p.rho) {
        let mut phi: Real = p.phi;
        if shape.full_phi && params[shape.phi_off + shape.nphi as usize].is_le(phi) {
            phi = p.phi_top;
        }
        iphi = cyl_bracket(params, shape.phi_off, shape.nphi, phi);
        if iphi >= shape.nphi {
            return None;
        }
    }
    Some(CylCell { ir, iphi, iz })
}

pub fn cyl_inside(params: &[Real], shape: CylShape, p: Probe) -> (r: bool)
    requires
        shape.wf(params@),
    ensures
        r == inside(shape, params@, p),
{
    cyl_indices(params, shape, p).is_some()
}

/// Flat voxel number, the radius fastest and the height slowest.
pub open spec fn cyl_voxel_of(shape: CylShape, c: CylCell) -> int {
    (c.iz * shape.nphi + c.iphi) * shape.nr + c.ir
}

/// Voxels of a mesh are numbered below their count.
pub proof fn cyl_voxel_in_range(shape: CylShape, c: CylCell)
    requires
        c.ir < shape.nr,
        c.iphi < shape.nphi,
        c.iz < shape.nz,
    ensures
        0 <= cyl_voxel_of(shape, c) < shape.voxels(),
        0 <= c.iz * shape.nphi + c.iphi,
        0 <= c.iz * shape.nphi,
        0 <= (c.iz * shape.nphi + c.iphi) * shape.nr,
{
    let nr = shape.nr as int;
    let np = shape.nphi as int;
    let nz = shape.nz as int;
    let row = c.iz * np + c.iphi;
    assert(0 <= c.iz * np && 0 <= row < np * nz) by (nonlinear_arith)
        requires
            row == c.iz * np + c.iphi,
            0 <= c.iphi < np,
            0 <= c.iz < nz,
    ;
    assert(0 <= row * nr && row * nr + c.ir < nr * (np * nz)) by (nonlinear_arith)
        requires
            0 <= row < np * nz,
            0 <= c.ir < nr,
    ;
    assert(nr * (np * nz) == nr * np * nz) by (nonlinear_arith);
}

pub fn cyl_voxel(shape: CylShape, c: CylCell) -> (r: u32)
    requires
        shape.voxels() <= u32::MAX,
        c.ir < shape.nr,
        c.iphi < shape.nphi,
        c.iz < shape.nz,
    ensures
        r == cyl_voxel_of(shape, c),
        r < shape.voxels(),
{
    proof {
        cyl_voxel_in_range(shape, c);
        let row = c.iz * shape.nphi + c.iphi;
        let nr = shape.nr as int;
        assert(row <= row * nr) by (nonlinear_arith)
            requires
                row >= 0,
                nr >= 1,
        ;
    }
    (c.iz * shape.nphi + c.iphi) * shape.nr + c.ir
}

/// Voxel that holds a point, or `None` outside the mesh.
pub fn cyl_mesh_bin_at(params: &[Real], shape: CylShape, p: Probe) -> (r: Option<u32>)
    requires
        shape.wf(params@),
    ensures
        r is Some <==> inside(shape, params@, p),
        r matches Some(v) ==> v < shape.voxels() && exists|c: CylCell|
            cell_holds(shape, params@, c, p) && v == #[trigger] cyl_voxel_of(shape, c),
{
    match cyl_indices(params, shape, p) {
        Some(c) => {
            let v: u32 = cyl_voxel(shape, c);
            assert(cell_holds(shape, params@, c, p) && v == cyl_voxel_of(shape, c));
            Some(v)
        },
        None => None,
    }
}

/// Distance that stands for "never".
pub open spec fn never() -> Real {
    Real { bits: NEVER_BITS }
}

/// Distance at which a flight crosses a cylinder of radius `r`, past
/// `threshold`: the nearer of the two roots that qualifies. `slope` and
/// `discriminant` are those of the radial quadratic.
pub fn cyl_shell_crossing(
    r: Real,
    slope: Real,
    discriminant: Real,
    near: Real,
    far: Real,
    threshold: Real,
) -> (t: Real)
    ensures
        t == if r.positive() && (Real { bits: PARALLEL_BITS }).le(slope) && (Real { bits: 0 }).le(
            discriminant,
        ) {
            if threshold.lt(near) {
                near
            } else if threshold.lt(far) {
                far
            } else {
                never()
            }
        } else {
            never()
        },
{
    if r.is_positive() && Real::new(PARALLEL_BITS).is_le(slope) && Real::zero().is_le(
        discriminant,
    ) {
        if threshold.is_lt(near) {
            return near;
        }
        if threshold.is_lt(far) {
            return far;
        }
    }
    Real::new(NEVER_BITS)
}

/// Distance at which a flight crosses a half-plane: past `threshold`, on the
/// side of the axis the half-plane lies on. `slope` is the angle's rate of
/// change, `side` the projection on the half-plane's direction.
pub fn cyl_phi_crossing(slope: Real, t: Real, threshold: Real, side: Real) -> (r: Real)
    ensures
        r == if (Real { bits: PARALLEL_BITS }).le(slope) && threshold.lt(t) && side.positive() {
            t
        } else {
            never()
        },
{
    if Real::new(PARALLEL_BITS).is_le(slope) && threshold.is_lt(t) && side.is_positive() {
        t
    } else {
        Real::new(NEVER_BITS)
    }
}

/// Distance to an event that counts only past `threshold` and for a slope that
/// is not parallel: the end plane of a cell, or the point nearest the axis.
pub fn event_past(slope: Real, t: Real, threshold: Real) -> (r: Real)
    ensures
        r == if (Real { bits: PARALLEL_BITS }).le(slope) && threshold.lt(t) {
            t
        } else {
            never()
        },
{
    if Real::new(PARALLEL_BITS).is_le(slope) && threshold.is_lt(t) {
        t
    } else {
        Real::new(NEVER_BITS)
    }
}

/// The smaller of two distances, the first among equals.
pub open spec fn sooner(a: Real, b: Real) -> Real {
    if b.lt(a) {
        b
    } else {
        a
    }
}

fn min_distance(a: Real, b: Real) -> (r: Real)
    ensures
        r == sooner(a, b),
{
    if b.is_lt(a) {
        b
    } else {
        a
    }
}

/// Distances to the events that end a cell.
#[derive(Clone, Copy, Debug)]
pub struct CellWalls {
    pub inner: Real,
    pub outer: Real,
    pub phi_lo: Real,
    pub phi_hi: Real,
    pub plane: Real,
    pub perigee: Real,
}

/// Distance at which a flight of length `total` leaves a cell: the soonest of
/// its walls, the point nearest the axis and the end of the flight.
pub open spec fn exit_of(w: CellWalls, total: Real) -> Real {
    sooner(
        sooner(
            sooner(sooner(sooner(w.inner, w.outer), sooner(w.phi_lo, w.phi_hi)), w.plane),
            w.perigee,
        ),
        total,
    )
}

pub fn cell_exit(w: CellWalls, total: Real) -> (r: Real)
    ensures
        r == exit_of(w, total),
{
    let dr: Real = min_distance(w.inner, w.outer);
    let dphi: Real = min_distance(w.phi_lo, w.phi_hi);
    min_distance(min_distance(min_distance(min_distance(dr, dphi), w.plane), w.perigee), total)
}

/// The exit is no later than any event of the cell.
pub proof fn exit_is_soonest(w: CellWalls, total: Real)
    requires
        !w.inner.is_nan_spec(),
        !w.outer.is_nan_spec(),
        !w.phi_lo.is_nan_spec(),
        !w.phi_hi.is_nan_spec(),
        !w.plane.is_nan_spec(),
        !w.perigee.is_nan_spec(),
        !total.is_nan_spec(),
    ensures
        exit_of(w, total).le(w.inner),
        exit_of(w, total).le(w.outer),
        exit_of(w, total).le(w.phi_lo),
        exit_of(w, total).le(w.phi_hi),
        exit_of(w, total).le(w.plane),
        exit_of(w, total).le(w.perigee),
        exit_of(w, total).le(total),
{
}

/// A place where a flight may enter the mesh: the distance, and the point just
/// past it.
#[derive(Clone, Copy, Debug)]
pub struct EntryCandidate {
    pub t: Real,
    pub probe: Probe,
}

/// The candidate lies past `threshold`, on the flight, and leads inside.
pub open spec fn enters(
    shape: CylShape,
    params: Seq<Real>,
    c: EntryCandidate,
    threshold: Real,
    total: Real,
) -> bool {
    threshold.lt(c.t) && c.t.le(total) && inside(shape, params, c.probe)
}

/// No candidate that enters the mesh comes before `r`.
pub open spec fn none_enters_before(
    shape: CylShape,
    params: Seq<Real>,
    candidates: Seq<EntryCandidate>,
    threshold: Real,
    total: Real,
    r: Real,
) -> bool {
    forall|i: int|
        0 <= i < candidates.len() && enters(
            shape,
            params,
            #[trigger] candidates[i],
            threshold,
            total,
        ) ==> !candidates[i].t.lt(r)
}

/// Smallest distance at which a flight first lies inside the mesh, or the
/// distance that stands for "never".
pub fn cyl_first_entry(
    params: &[Real],
    shape: CylShape,
    candidates: &[EntryCandidate],
    threshold: Real,
    total: Real,
) -> (r: Real)
    requires
        shape.wf(params@),
    ensures
        r == never() || exists|i: int|
            0 <= i < candidates.len() && (#[trigger] candidates@[i]).t == r && r.lt(never())
                && enters(shape, params@, candidates@[i], threshold, total),
        forall|i: int|
            0 <= i < candidates.len() && enters(
                shape,
                params@,
                #[trigger] candidates@[i],
                threshold,
                total,
            ) ==> !candidates@[i].t.lt(r),
        none_enters_before(shape, params@, candidates@, threshold, total, r),
{
    let mut best: Real = Real::new(NEVER_BITS);
    let mut i: usize = 0;
    while i < candidates.len()
        invariant
            i <= candidates.len(),
            shape.wf(params@),
            !best.is_nan_spec(),
            best == never() || exists|j: int|
                0 <= j < i && (#[trigger] candidates@[j]).t == best && best.lt(never()) && enters(
                    shape,
                    params@,
                    candidates@[j],
                    threshold,
                    total,
                ),
            forall|j: int|
                0 <= j < i && enters(
                    shape,
                    params@,
                    #[trigger] candidates@[j],
                    threshold,
                    total,
                ) ==> !candidates@[j].t.lt(best),
            best.le(never()),
        decreases candidates.len() - i,
    {
        let c: EntryCandidate = candidates[i];
        if threshold.is_lt(c.t) && c.t.is_lt(best) && c.t.is_le(total) && cyl_inside(
            params,
            shape,
            c.probe,
        ) {
            best = c.t;
            assert(candidates@[i as int].t == best);
        }
        i = i + 1;
    }
    best
}

/// A face of the mesh, by its place among the faces of its kind.
#[derive(Clone, Copy, Debug, PartialEq, Eq, Structural)]
pub enum Face {
    Shell { index: usize },
    Wall { index: usize },
    Plane { index: usize },
}

/// Faces through which a flight can enter: the innermost and the outermost
/// shell, the two walls of a mesh that does not close, and the two end planes.
pub open spec fn entry_faces_of(shape: CylShape) -> Seq<Face> {
    seq![Face::Shell { index: 0 }, Face::Shell { index: shape.nr as usize }] + (if shape.full_phi {
        Seq::empty()
    } else {
        seq![Face::Wall { index: 0 }, Face::Wall { index: shape.nphi as usize }]
    }) + seq![Face::Plane { index: 0 }, Face::Plane { index: shape.nz as usize }]
}

pub fn entry_faces(shape: CylShape) -> (r: Vec<Face>)
    ensures
        r@ == entry_faces_of(shape),
{
    let mut r: Vec<Face> = Vec::new();
    r.push(Face::Shell { index: 0 });
    r.push(Face::Shell { index: shape.nr as usize });
    if !shape.full_phi {
        r.push(Face::Wall { index: 0 });
        r.push(Face::Wall { index: shape.nphi as usize });
    }
    r.push(Face::Plane { index: 0 });
    r.push(Face::Plane { index: shape.nz as usize });
    assert(r@ =~= entry_faces_of(shape));
    r
}

/// Distances at which a flight meets a shell of radius `r`: both roots, unless
/// it misses the shell or runs along the axis.
pub fn shell_entries(r: Real, slope: Real, discriminant: Real, near: Real, far: Real) -> (ts: Vec<
    Real,
>)
    ensures
        ts@ == if r.positive() && (Real { bits: PARALLEL_BITS }).le(slope) && (Real {
            bits: 0,
        }).le(discriminant) {
            seq![near, far]
        } else {
            Seq::empty()
        },
{
    let mut ts: Vec<Real> = Vec::new();
    if r.is_positive() && Real::new(PARALLEL_BITS).is_le(slope) && Real::zero().is_le(
        discriminant,
    ) {
        ts.push(near);
        ts.push(far);
    }
    ts
}

/// Distance at which a flight meets an end plane, unless it runs along it.
pub fn plane_entries(slope: Real, t: Real) -> (ts: Vec<Real>)
    ensures
        ts@ == if (Real { bits: PARALLEL_BITS }).le(slope) {
            seq![t]
        } else {
            Seq::empty()
        },
{
    let mut ts: Vec<Real> = Vec::new();
    if Real::new(PARALLEL_BITS).is_le(slope) {
        ts.push(t);
    }
    ts
}

/// End plane through which a flight leaves a cell: the upper one when it rises.
pub fn exit_plane(cell: CylCell, rising: bool) -> (r: usize)
    requires
        cell.iz < u32::MAX,
    ensures
        r == cell.iz + if rising {
            1int
        } else {
            0int
        },
{
    if rising {
        cell.iz as usize + 1
    } else {
        cell.iz as usize
    }
}

/// What a walk through the mesh was told.
#[derive(Clone, Copy, Debug)]
pub enum CylEvent {
    /// The flight begins.
    Begin,
    /// The cell just past the cursor, if it lies in the mesh.
    Probed { found: Option<CylCell> },
    /// The events that end the cell.
    Measured { cell: CylCell, walls: CellWalls },
    /// The next entry into the mesh.
    Entered { entry: Real },
}

/// What a walk through the mesh asks for.
#[derive(Clone, Copy, Debug)]
pub enum CylAction {
    /// The cell just past the cursor.
    Probe,
    /// The events that end the cell.
    Measure { cell: CylCell },
    /// The next entry.
    Enter,
    /// Nothing: the flight has been walked.
    Done,
}

/// The walk of a flight through a cylindrical mesh: a cursor along the flight
/// that moves from wall to wall, or jumps to the next entry, a bounded number
/// of times.
pub struct CylWalk {
    pub cursor: Real,
    pub total: Real,
    pub iterations: u64,
    pub cap: u64,
    pub running: bool,
}

impl CylWalk {
    pub open spec fn wf(self) -> bool {
        self.iterations <= self.cap
    }

    /// The beginning of a flight.
    pub open spec fn started(shape: CylShape, total: Real) -> CylWalk {
        CylWalk {
            cursor: Real { bits: 0 },
            total,
            iterations: 0,
            cap: (4 * (shape.nr + shape.nphi + shape.nz) + 32) as u64,
            running: !total.lt(Real { bits: SHORTEST_BITS }),
        }
    }

    /// Starts at the beginning of a flight. A flight too short to be scored is
    /// dropped.
    pub fn start(shape: CylShape, total: Real) -> (r: CylWalk)
        ensures
            r.wf(),
            r == CylWalk::started(shape, total),
            r.cursor.bits == 0,
            r.total == total,
            r.iterations == 0,
            r.cap == 4 * (shape.nr + shape.nphi + shape.nz) + 32,
            r.running == !total.lt(Real { bits: SHORTEST_BITS }),
    {
        CylWalk {
            cursor: Real::zero(),
            total,
            iterations: 0,
            cap: 4 * (shape.nr as u64 + shape.nphi as u64 + shape.nz as u64) + 32,
            running: is_scored(total),
        }
    }

    /// Whether another event is to be found: the walk has not ended, the bound
    /// is not used up and the cursor is before the end of the flight.
    pub fn advance(&mut self) -> (r: bool)
        requires
            old(self).wf(),
        ensures
            final(self).wf(),
            final(self).cursor == old(self).cursor,
            final(self).total == old(self).total,
            final(self).cap == old(self).cap,
            r == (old(self).running && old(self).iterations < old(self).cap && !old(self).total.le(
                old(self).cursor,
            )),
            final(self).running == r,
            final(self).iterations == old(self).iterations + if old(self).running && old(self).iterations < old(self).cap {
                1int
            } else {
                0int
            },
    {
        if !self.running || self.iterations >= self.cap {
            self.running = false;
            return false;
        }
        self.iterations = self.iterations + 1;
        if self.total.is_le(self.cursor) {
            self.running = false;
        }
        self.running
    }

    /// Leaves a cell at `exit`: the segment crossed, and the cursor moved on
    /// unless the flight has ended.
    pub fn leave(&mut self, voxel: u32, exit: Real) -> (r: Crossing)
        requires
            old(self).wf(),
        ensures
            final(self).wf(),
            r == (Crossing { voxel, from: old(self).cursor, to: exit }),
            final(self).total == old(self).total,
            final(self).cap == old(self).cap,
            final(self).iterations == old(self).iterations,
            old(self).total.le(exit) ==> !final(self).running && final(self).cursor == old(self).cursor,
            !old(self).total.le(exit) ==> final(self).running == old(self).running && final(self).cursor == exit,
    {
        let r = Crossing { voxel, from: self.cursor, to: exit };
        if self.total.is_le(exit) {
            self.running = false;
        } else {
            self.cursor = exit;
        }
        r
    }

    /// Jumps to the next entry, or ends when it lies past the flight.
    pub fn enter(&mut self, entry: Real)
        requires
            old(self).wf(),
        ensures
            final(self).wf(),
            final(self).total == old(self).total,
            final(self).cap == old(self).cap,
            final(self).iterations == old(self).iterations,
            entry.lt(old(self).total) ==> final(self).running == old(self).running && final(self).cursor == entry,
            !entry.lt(old(self).total) ==> !final(self).running && final(self).cursor == old(self).cursor,
    {
        if entry.is_lt(self.total) {
            self.cursor = entry;
        } else {
            self.running = false;
        }
    }
}

impl CylWalk {
    /// Another event is to be found, or the walk has ended.
    pub open spec fn advanced(self) -> CylWalk {
        let counts = self.running && self.iterations < self.cap;
        CylWalk {
            iterations: if counts {
                (self.iterations + 1) as u64
            } else {
                self.iterations
            },
            running: counts && !self.total.le(self.cursor),
            ..self
        }
    }

    /// The cell is left at `exit`.
    pub open spec fn left(self, exit: Real) -> CylWalk {
        if self.total.le(exit) {
            CylWalk { running: false, ..self }
        } else {
            CylWalk { cursor: exit, ..self }
        }
    }

    /// The mesh is entered.
    pub open spec fn entered(self, entry: Real) -> CylWalk {
        if entry.lt(self.total) {
            CylWalk { cursor: entry, ..self }
        } else {
            CylWalk { running: false, ..self }
        }
    }

    /// What the walk asks for once it has advanced.
    pub open spec fn asks(self) -> CylAction {
        if self.running {
            CylAction::Probe
        } else {
            CylAction::Done
        }
    }

    /// Takes what was found and says what to find next. Inside the mesh the walk
    /// measures its cell and leaves it, which crosses one voxel; outside it goes
    /// on to the next entry.
    pub fn step(&mut self, shape: CylShape, event: CylEvent) -> (r: (CylAction, Option<Crossing>))
        requires
            old(self).wf(),
            shape.voxels() <= u32::MAX,
            event matches CylEvent::Measured { cell, walls } ==> cell.ir < shape.nr && cell.iphi
                < shape.nphi && cell.iz < shape.nz,
        ensures
            final(self).wf(),
            match event {
                CylEvent::Begin => *final(self) == old(self).advanced() && r == (
                    old(self).advanced().asks(),
                    None::<Crossing>,
                ),
                CylEvent::Probed { found } => *final(self) == *old(self) && r.1 is None && r.0
                    == match found {
                    Some(c) => CylAction::Measure { cell: c },
                    None => CylAction::Enter,
                },
                CylEvent::Measured { cell, walls } => {
                    let exit = exit_of(walls, old(self).total);
                    let next = old(self).left(exit).advanced();
                    &&& *final(self) == next
                    &&& r.0 == next.asks()
                    &&& r.1 == Some(
                        Crossing {
                            voxel: cyl_voxel_of(shape, cell) as u32,
                            from: old(self).cursor,
                            to: exit,
                        },
                    )
                },
                CylEvent::Entered { entry } => {
                    let next = old(self).entered(entry).advanced();
                    *final(self) == next && r == (next.asks(), None::<Crossing>)
                },
            },
    {
        let crossed: Option<Crossing> = match event {
            CylEvent::Begin => None,
            CylEvent::Probed { found } => {
                return match found {
                    Some(c) => (CylAction::Measure { cell: c }, None),
                    None => (CylAction::Enter, None),
                };
            },
            CylEvent::Measured { cell, walls } => {
                let exit: Real = cell_exit(walls, self.total);
                Some(self.leave(cyl_voxel(shape, cell), exit))
            },
            CylEvent::Entered { entry } => {
                self.enter(entry);
                None
            },
        };
        let goes_on = self.advance();
        let action = if goes_on {
            CylAction::Probe
        } else {
            CylAction::Done
        };
        (action, crossed)
    }
}

/// `out` is what a flight crosses from where the walk stands: at each stop the
/// cell past the cursor is crossed up to the soonest of its events, or the walk
/// goes on to the next entry, until the flight ends.
pub open spec fn crosses<
    L: Fn(Real) -> Option<CylCell>,
    W: Fn(Real, CylCell) -> CellWalls,
    E: Fn(Real) -> Real,
>(shape: CylShape, walk: CylWalk, locate: L, walls: W, entry: E, out: Seq<Crossing>) -> bool
    decreases walk.stops_left(),
{
    if !walk.running {
        out.len() == 0
    } else {
        exists|cell: Option<CylCell>| #[trigger]
            call_ensures(locate, (walk.cursor,), cell) && match cell {
                Some(c) => exists|w: CellWalls| #[trigger]
                    call_ensures(walls, (walk.cursor, c), w) && out.len() > 0 && out[0]
                        == walk.crossing(shape, c, w) && crosses(
                        shape,
                        walk.left(exit_of(w, walk.total)).advanced(),
                        locate,
                        walls,
                        entry,
                        out.drop_first(),
                    ),
                None => exists|e: Real| #[trigger]
                    call_ensures(entry, (walk.cursor,), e) && crosses(
                        shape,
                        walk.entered(e).advanced(),
                        locate,
                        walls,
                        entry,
                        out,
                    ),
            }
    }
}

impl CylWalk {
    /// Stops that the walk may still make.
    pub open spec fn stops_left(self) -> nat {
        if !self.running {
            0
        } else if self.iterations < self.cap {
            (1 + self.cap - self.iterations) as nat
        } else {
            1
        }
    }

    /// The cell crossed from the cursor on.
    pub open spec fn crossing(self, shape: CylShape, cell: CylCell, walls: CellWalls) -> Crossing {
        Crossing {
            voxel: cyl_voxel_of(shape, cell) as u32,
            from: self.cursor,
            to: exit_of(walls, self.total),
        }
    }
}

/// The cell lies in the mesh.
pub open spec fn in_shape(shape: CylShape, c: CylCell) -> bool {
    c.ir < shape.nr && c.iphi < shape.nphi && c.iz < shape.nz
}

/// All voxels that a flight of the given length crosses. `locate` finds the cell
/// just past the cursor, `walls` the events that end a cell and `entry` the next
/// entry into the mesh.
pub fn cyl_crossings<
    L: Fn(Real) -> Option<CylCell>,
    W: Fn(Real, CylCell) -> CellWalls,
    E: Fn(Real) -> Real,
>(shape: CylShape, total: Real, locate: &L, walls: &W, entry: &E) -> (r: Vec<Crossing>)
    requires
        shape.voxels() <= u32::MAX,
        forall|t: Real| #[trigger] call_requires(*locate, (t,)),
        forall|t: Real, c: CylCell| #[trigger] call_requires(*walls, (t, c)),
        forall|t: Real| #[trigger] call_requires(*entry, (t,)),
        forall|t: Real, c: CylCell| #[trigger]
            call_ensures(*locate, (t,), Some(c)) ==> in_shape(shape, c),
    ensures
        crosses(shape, CylWalk::started(shape, total).advanced(), *locate, *walls, *entry, r@),
{
    let mut walk = CylWalk::start(shape, total);
    let ghost first = walk.advanced();
    let mut r: Vec<Crossing> = Vec::new();
    let _ = walk.step(shape, CylEvent::Begin);
    proof {
        assert forall|rest: Seq<Crossing>| #[trigger]
            crosses(shape, walk, *locate, *walls, *entry, rest) implies crosses(
            shape,
            first,
            *locate,
            *walls,
            *entry,
            r@ + rest,
        ) by {
            assert(r@ + rest =~= rest);
        }
    }
    while walk.running
        invariant
            walk.wf(),
            shape.voxels() <= u32::MAX,
            forall|t: Real| #[trigger] call_requires(*locate, (t,)),
            forall|t: Real, c: CylCell| #[trigger] call_requires(*walls, (t, c)),
            forall|t: Real| #[trigger] call_requires(*entry, (t,)),
            forall|t: Real, c: CylCell| #[trigger]
                call_ensures(*locate, (t,), Some(c)) ==> in_shape(shape, c),
            forall|rest: Seq<Crossing>| #[trigger]
                crosses(shape, walk, *locate, *walls, *entry, rest) ==> crosses(
                    shape,
                    first,
                    *locate,
                    *walls,
                    *entry,
                    r@ + rest,
                ),
        decreases walk.stops_left(),
    {
        let ghost here = walk;
        let ghost so_far = r@;
        let cell = locate(walk.cursor);
        assert(call_ensures(*locate, (here.cursor,), cell));
        match cell {
            Some(c) => {
                let w = walls(walk.cursor, c);
                assert(in_shape(shape, c));
                let (_, crossing) = walk.step(shape, CylEvent::Measured { cell: c, walls: w });
                let ghost one = here.crossing(shape, c, w);
                assert(crossing == Some(one));
                if let Some(x) = crossing {
                    r.push(x);
                }
                assert forall|rest: Seq<Crossing>| #[trigger]
                    crosses(shape, walk, *locate, *walls, *entry, rest) implies crosses(
                    shape,
                    first,
                    *locate,
                    *walls,
                    *entry,
                    r@ + rest,
                ) by {
                    let longer = seq![one] + rest;
                    assert(longer.drop_first() =~= rest);
                    assert(call_ensures(*walls, (here.cursor, c), w));
                    assert(crosses(shape, here, *locate, *walls, *entry, longer));
                    assert(so_far + longer =~= r@ + rest);
                }
            },
            None => {
                let e = entry(walk.cursor);
                let _ = walk.step(shape, CylEvent::Entered { entry: e });
                assert forall|rest: Seq<Crossing>| #[trigger]
                    crosses(shape, walk, *locate, *walls, *entry, rest) implies crosses(
                    shape,
                    first,
                    *locate,
                    *walls,
                    *entry,
                    r@ + rest,
                ) by {
                    assert(call_ensures(*entry, (here.cursor,), e));
                    assert(crosses(shape, here, *locate, *walls, *entry, rest));
                }
            },
        }
    }
    proof {
        let none = Seq::<Crossing>::empty();
        assert(crosses(shape, walk, *locate, *walls, *entry, none));
        assert(r@ + none =~= r@);
    }
    r
}

/// Events lie ahead: a cell is left past the cursor, and an entry is past it.
pub open spec fn leads_on<W: Fn(Real, CylCell) -> CellWalls, E: Fn(Real) -> Real>(
    walls: W,
    entry: E,
    total: Real,
) -> bool {
    &&& forall|t: Real, c: CylCell, w: CellWalls| #[trigger]
        call_ensures(walls, (t, c), w) && t.lt(total) ==> t.lt(exit_of(w, total)) && exit_of(
            w,
            total,
        ).le(total)
    &&& forall|t: Real, e: Real| #[trigger]
        call_ensures(entry, (t,), e) && t.lt(total) && e.lt(total) ==> t.le(e)
}

/// A whole flight through the mesh crosses its voxels one after the other: each
/// crossing has a length, none begins before the cursor or before the one ahead
/// of it has ended, and none reaches past the end of the flight. There are no
/// more of them than the walk may make stops, and each is of a voxel of the mesh.
pub proof fn flight_crosses_voxels_in_order<
    L: Fn(Real) -> Option<CylCell>,
    W: Fn(Real, CylCell) -> CellWalls,
    E: Fn(Real) -> Real,
>(shape: CylShape, walk: CylWalk, locate: L, walls: W, entry: E, out: Seq<Crossing>)
    requires
        shape.voxels() <= u32::MAX,
        crosses(shape, walk, locate, walls, entry, out),
        walk.running ==> walk.cursor.lt(walk.total),
        leads_on(walls, entry, walk.total),
        forall|t: Real, c: CylCell| #[trigger]
            call_ensures(locate, (t,), Some(c)) ==> in_shape(shape, c),
    ensures
        out.len() <= walk.stops_left(),
        forall|i: int|
            0 <= i < out.len() ==> walk.cursor.le((#[trigger] out[i]).from) && out[i].from.lt(
                out[i].to,
            ) && out[i].to.le(walk.total) && out[i].voxel < shape.voxels(),
        forall|i: int, j: int|
            0 <= i < j < out.len() ==> (#[trigger] out[i]).to.le((#[trigger] out[j]).from),
    decreases walk.stops_left(),
{
    if walk.running {
        let cell = choose|cell: Option<CylCell>| #[trigger]
            call_ensures(locate, (walk.cursor,), cell) && match cell {
                Some(c) => exists|w: CellWalls| #[trigger]
                    call_ensures(walls, (walk.cursor, c), w) && out.len() > 0 && out[0]
                        == walk.crossing(shape, c, w) && crosses(
                        shape,
                        walk.left(exit_of(w, walk.total)).advanced(),
                        locate,
                        walls,
                        entry,
                        out.drop_first(),
                    ),
                None => exists|e: Real| #[trigger]
                    call_ensures(entry, (walk.cursor,), e) && crosses(
                        shape,
                        walk.entered(e).advanced(),
                        locate,
                        walls,
                        entry,
                        out,
                    ),
            };
        match cell {
            Some(c) => {
                let w = choose|w: CellWalls| #[trigger]
                    call_ensures(walls, (walk.cursor, c), w) && out.len() > 0 && out[0]
                        == walk.crossing(shape, c, w) && crosses(
                        shape,
                        walk.left(exit_of(w, walk.total)).advanced(),
                        locate,
                        walls,
                        entry,
                        out.drop_first(),
                    );
                let next = walk.left(exit_of(w, walk.total)).advanced();
                let rest = out.drop_first();
                assert(in_shape(shape, c));
                cyl_voxel_in_range(shape, c);
                flight_crosses_voxels_in_order(shape, next, locate, walls, entry, rest);
                assert forall|i: int| 0 <= i < out.len() implies walk.cursor.le(
                    (#[trigger] out[i]).from,
                ) && out[i].from.lt(out[i].to) && out[i].to.le(walk.total) && out[i].voxel
                    < shape.voxels() by {
                    if i > 0 {
                        assert(out[i] == rest[i - 1]);
                    }
                }
                assert forall|i: int, j: int| 0 <= i < j < out.len() implies (
                #[trigger] out[i]).to.le((#[trigger] out[j]).from) by {
                    assert(out[j] == rest[j - 1]);
                    if i > 0 {
                        assert(out[i] == rest[i - 1]);
                    }
                }
            },
            None => {
                let e = choose|e: Real| #[trigger]
                    call_ensures(entry, (walk.cursor,), e) && crosses(
                        shape,
                        walk.entered(e).advanced(),
                        locate,
                        walls,
                        entry,
                        out,
                    );
                let next = walk.entered(e).advanced();
                flight_crosses_voxels_in_order(shape, next, locate, walls, entry, out);
            },
        }
    }
}

/// Crossings in order between two points of a flight add up to no more than the
/// distance between them, in exact numbers.
pub proof fn crossings_in_order_fit(out: Seq<Crossing>, from: Real, to: Real)
    requires
        from.is_finite_spec(),
        to.is_finite_spec(),
        from.le(to),
        forall|i: int|
            0 <= i < out.len() ==> (#[trigger] out[i]).from.is_finite_spec()
                && out[i].to.is_finite_spec() && from.le(out[i].from) && out[i].from.lt(out[i].to)
                && out[i].to.le(to),
        forall|i: int, j: int|
            0 <= i < j < out.len() ==> (#[trigger] out[i]).to.le((#[trigger] out[j]).from),
    ensures
        0 <= crossed_length(out) <= to.scaled_value() - from.scaled_value(),
    decreases out.len(),
{
    order_is_numeric(from, to);
    if out.len() > 0 {
        let c = out[0];
        let rest = out.drop_first();
        order_is_numeric(from, c.from);
        order_is_numeric(c.from, c.to);
        order_is_numeric(c.to, to);
        assert forall|i: int| 0 <= i < rest.len() implies (#[trigger] rest[i]).from.is_finite_spec()
            && rest[i].to.is_finite_spec() && c.to.le(rest[i].from) && rest[i].from.lt(rest[i].to)
            && rest[i].to.le(to) by {
            assert(rest[i] == out[i + 1]);
            assert(out[0].to.le(out[i + 1].from));
        }
        assert forall|i: int, j: int| 0 <= i < j < rest.len() implies (#[trigger] rest[i]).to.le(
            (#[trigger] rest[j]).from,
        ) by {
            assert(rest[i] == out[i + 1] && rest[j] == out[j + 1]);
        }
        crossings_in_order_fit(rest, c.to, to);
    }
}

/// The cursor never moves back: an exit whose walls all lie past the threshold,
/// which is not before the cursor, is itself past the cursor.
pub proof fn cursor_moves_forward(w: CellWalls, total: Real, cursor: Real, threshold: Real)
    requires
        cursor.le(threshold),
        threshold.lt(w.inner),
        threshold.lt(w.outer),
        threshold.lt(w.phi_lo),
        threshold.lt(w.phi_hi),
        threshold.lt(w.plane),
        threshold.lt(w.perigee),
        cursor.lt(total),
    ensures
        cursor.lt(exit_of(w, total)),
{
}

/// A mesh is read from its header: the counts at words three to five, whether the
/// angles go all the way round at word six, and behind it the radii, their
/// squares, the angles and the heights, each list one longer than its count.
pub proof fn a_mesh_is_laid_out_list_behind_list(params: &[Real], mo: usize, r: CylShape)
    requires
        mo + 7 <= params.len(),
        mo + 7 + 2 * (params@[mo + 3].to_u32_spec() + 1) + params@[mo + 4].to_u32_spec() + 1
            <= usize::MAX,
        call_ensures(cyl_shape, (params, mo), r),
    ensures
        r.nr == params@[mo + 3].to_u32_spec(),
        r.nphi == params@[mo + 4].to_u32_spec(),
        r.nz == params@[mo + 5].to_u32_spec(),
        r.full_phi <==> (Real { bits: 0x3fe0_0000_0000_0000 }).lt(params@[mo + 6]),
        r.r_off == mo + 7,
        r.rsq_off == mo + 7 + (r.nr + 1),
        r.phi_off == mo + 7 + 2 * (r.nr + 1),
        r.z_off == mo + 7 + 2 * (r.nr + 1) + (r.nphi + 1),
{
}

/// The cell of a value along one list of bounds: from its lower bound up to the
/// upper one, which belongs to the next cell.
pub open spec fn between_bounds(params: Seq<Real>, off: int, n: int, i: int, v: Real) -> bool {
    0 <= i < n && params[off + i].le(v) && v.lt(params[off + i + 1])
}

/// The angle that is looked up: turned once around where the angles go all the
/// way round and the point lies at or past the last of them.
pub open spec fn turned_angle(shape: CylShape, params: Seq<Real>, p: Probe, v: Real) -> bool {
    let past = shape.full_phi && params[shape.phi_off + shape.nphi].le(p.phi);
    (past ==> v == p.phi_top) && (!past ==> v == p.phi)
}

/// A point lies in the voxel of the cells that hold its radius, its angle and its
/// height, the radius running fastest. Within `1e-14` of the axis the angle does
/// not count. Outside the bounds of any of them it lies in none.
pub proof fn a_point_lies_in_the_voxel_of_its_cells(
    params: &[Real],
    shape: CylShape,
    p: Probe,
    angle: Real,
    r: Option<u32>,
)
    requires
        shape.wf(params@),
        turned_angle(shape, params@, p, angle),
        call_ensures(cyl_mesh_bin_at, (params, shape, p), r),
    ensures
        r is Some <==> {
            &&& params@[shape.r_off as int].le(p.rho) && p.rho.lt(params@[shape.r_off + shape.nr])
            &&& params@[shape.z_off as int].le(p.z) && p.z.lt(params@[shape.z_off + shape.nz])
            &&& !(Real { bits: 0x3d06_849b_86a1_2b9b }).le(p.rho) || (params@[shape.phi_off as int].le(
                angle,
            ) && angle.lt(params@[shape.phi_off + shape.nphi]))
        },
        r matches Some(v) ==> exists|ir: int, iphi: int, iz: int|
            {
                &&& v == #[trigger] ((iz * shape.nphi + iphi) * shape.nr + ir)
                &&& between_bounds(params@, shape.r_off as int, shape.nr as int, ir, p.rho)
                &&& between_bounds(params@, shape.z_off as int, shape.nz as int, iz, p.z)
                &&& (Real { bits: 0x3d06_849b_86a1_2b9b }).le(p.rho) ==> between_bounds(
                    params@,
                    shape.phi_off as int,
                    shape.nphi as int,
                    iphi,
                    angle,
                )
                &&& !(Real { bits: 0x3d06_849b_86a1_2b9b }).le(p.rho) ==> iphi == 0
            },
{
    let radii = shape.radii(params@);
    let angles = shape.angles(params@);
    let heights = shape.heights(params@);
    assert(radii[0] == params@[shape.r_off as int]);
    assert(radii[shape.nr as int] == params@[shape.r_off + shape.nr]);
    assert(angles[0] == params@[shape.phi_off as int]);
    assert(angles[shape.nphi as int] == params@[shape.phi_off + shape.nphi]);
    assert(heights[0] == params@[shape.z_off as int]);
    assert(heights[shape.nz as int] == params@[shape.z_off + shape.nz]);
    if let Some(v) = r {
        let c = choose|c: CylCell|
            cell_holds(shape, params@, c, p) && v == #[trigger] cyl_voxel_of(shape, c);
        assert(cell_holds(shape, params@, c, p));
        assert(v == (c.iz as int * shape.nphi + c.iphi as int) * shape.nr + c.ir as int);
        assert(radii[c.ir as int] == params@[shape.r_off + c.ir]);
        assert(radii[c.ir + 1] == params@[shape.r_off + c.ir + 1]);
        assert(heights[c.iz as int] == params@[shape.z_off + c.iz]);
        assert(heights[c.iz + 1] == params@[shape.z_off + c.iz + 1]);
        if !on_axis(p) {
            assert(angles[c.iphi as int] == params@[shape.phi_off + c.iphi]);
            assert(angles[c.iphi + 1] == params@[shape.phi_off + c.iphi + 1]);
        }
    }
}

/// A shell is met at the nearer root past the threshold; not at all where it has no
/// radius, the flight runs along it or the roots are not real.
pub proof fn a_shell_is_met_at_the_nearer_root_ahead(
    r: Real,
    slope: Real,
    discriminant: Real,
    near: Real,
    far: Real,
    threshold: Real,
    t: Real,
)
    requires
        call_ensures(cyl_shell_crossing, (r, slope, discriminant, near, far, threshold), t),
    ensures
        ({
            let met = (Real { bits: 0 }).lt(r) && (Real { bits: 0x3d06_849b_86a1_2b9b }).le(slope)
                && (Real { bits: 0 }).le(discriminant);
            &&& met && threshold.lt(near) ==> t == near
            &&& met && !threshold.lt(near) && threshold.lt(far) ==> t == far
            &&& !met || (!threshold.lt(near) && !threshold.lt(far)) ==> t.bits == 0x7e37_e43c_8800_759c
        }),
{
}

/// An angular wall is met past the threshold, on its own side of the axis, unless
/// the flight runs along it.
pub proof fn a_wall_is_met_on_its_own_side(
    slope: Real,
    t: Real,
    threshold: Real,
    side: Real,
    r: Real,
)
    requires
        call_ensures(cyl_phi_crossing, (slope, t, threshold, side), r),
    ensures
        ({
            let met = (Real { bits: 0x3d06_849b_86a1_2b9b }).le(slope) && threshold.lt(t) && (Real {
                bits: 0,
            }).lt(side);
            (met ==> r == t) && (!met ==> r.bits == 0x7e37_e43c_8800_759c)
        }),
{
}

/// A plane is met past the threshold, unless the flight runs along it.
pub proof fn a_plane_is_met_ahead(slope: Real, t: Real, threshold: Real, r: Real)
    requires
        call_ensures(event_past, (slope, t, threshold), r),
    ensures
        ({
            let met = (Real { bits: 0x3d06_849b_86a1_2b9b }).le(slope) && threshold.lt(t);
            (met ==> r == t) && (!met ==> r.bits == 0x7e37_e43c_8800_759c)
        }),
{
}

/// A rising flight leaves through the plane above its cell, any other through the
/// one below.
pub proof fn a_flight_leaves_through_the_plane_ahead(cell: CylCell, rising: bool, r: usize)
    requires
        cell.iz < u32::MAX,
        call_ensures(exit_plane, (cell, rising), r),
    ensures
        rising ==> r == cell.iz + 1,
        !rising ==> r == cell.iz,
{
}

/// All six distances of a cell are numbers.
pub open spec fn walls_are_numbers(w: CellWalls) -> bool {
    &&& !w.inner.is_nan_spec() && !w.outer.is_nan_spec()
    &&& !w.phi_lo.is_nan_spec() && !w.phi_hi.is_nan_spec()
    &&& !w.plane.is_nan_spec() && !w.perigee.is_nan_spec()
}

/// The first of seven: one of the six distances of a cell or the end of the flight,
/// and past none of them.
pub open spec fn is_the_first_of(w: CellWalls, total: Real, t: Real) -> bool {
    &&& t.le(w.inner) && t.le(w.outer) && t.le(w.phi_lo) && t.le(w.phi_hi)
    &&& t.le(w.plane) && t.le(w.perigee) && t.le(total)
    &&& t == w.inner || t == w.outer || t == w.phi_lo || t == w.phi_hi || t == w.plane || t
        == w.perigee || t == total
}

/// A cell is left at the first of its walls, at the point nearest the axis or at the
/// end of the flight, whichever comes first.
pub proof fn a_cell_is_left_at_what_comes_first(w: CellWalls, total: Real, t: Real)
    requires
        walls_are_numbers(w) && !total.is_nan_spec(),
        call_ensures(cell_exit, (w, total), t),
    ensures
        is_the_first_of(w, total, t),
{
}

/// The first entry into the mesh is the nearest candidate that lies past the
/// threshold, not past the flight and inside the mesh; with no such candidate it
/// is never.
pub proof fn the_first_entry_is_the_nearest_inside(
    params: &[Real],
    shape: CylShape,
    candidates: &[EntryCandidate],
    threshold: Real,
    total: Real,
    r: Real,
    i: int,
)
    requires
        shape.wf(params@),
        call_ensures(cyl_first_entry, (params, shape, candidates, threshold, total), r),
        0 <= i < candidates.len(),
        threshold.lt(candidates@[i].t),
        candidates@[i].t.le(total),
        call_ensures(cyl_inside, (params, shape, candidates@[i].probe), true),
    ensures
        !candidates@[i].t.lt(r),
        r.bits == 0x7e37_e43c_8800_759c || exists|j: int|
            0 <= j < candidates.len() && (#[trigger] candidates@[j]).t == r && threshold.lt(r)
                && r.le(total),
{
    let c = candidates@[i];
    assert(enters(shape, params@, c, threshold, total));
    assert(none_enters_before(shape, params@, candidates@, threshold, total, r));
    if r != never() {
        let j = choose|j: int|
            0 <= j < candidates.len() && (#[trigger] candidates@[j]).t == r && r.lt(never())
                && enters(shape, params@, candidates@[j], threshold, total);
        assert(candidates@[j].t == r);
    }
}

/// The faces of the mesh are the first and last shell, the two end walls where the
/// angles leave a gap, and the first and last plane.
pub proof fn the_mesh_is_entered_through_its_outer_faces(shape: CylShape, r: Vec<Face>)
    requires
        call_ensures(entry_faces, (shape,), r),
    ensures
        shape.full_phi ==> r@.len() == 4,
        !shape.full_phi ==> r@.len() == 6,
        r@[0] == (Face::Shell { index: 0 }),
        r@[1] is Shell && r@[1]->Shell_index == shape.nr,
        !shape.full_phi ==> r@[2] is Wall && r@[2]->Wall_index == 0,
        !shape.full_phi ==> r@[3] is Wall && r@[3]->Wall_index == shape.nphi,
        r@[r@.len() - 2] is Plane && r@[r@.len() - 2]->Plane_index == 0,
        r@[r@.len() - 1] is Plane && r@[r@.len() - 1]->Plane_index == shape.nz,
{
}

/// A shell offers both of its roots, a plane its one, unless the flight runs along
/// it; a shell also none where it has no radius or the roots are not real.
pub proof fn faces_offer_their_roots(
    r: Real,
    slope: Real,
    discriminant: Real,
    near: Real,
    far: Real,
    shell: Vec<Real>,
    plane: Vec<Real>,
)
    requires
        call_ensures(shell_entries, (r, slope, discriminant, near, far), shell),
        call_ensures(plane_entries, (slope, near), plane),
    ensures
        ({
            let crossed = (Real { bits: 0x3d06_849b_86a1_2b9b }).le(slope);
            let met = crossed && (Real { bits: 0 }).lt(r) && (Real { bits: 0 }).le(discriminant);
            &&& met ==> shell@.len() == 2 && shell@[0] == near && shell@[1] == far
            &&& !met ==> shell@.len() == 0
            &&& crossed ==> plane@.len() == 1 && plane@[0] == near
            &&& !crossed ==> plane@.len() == 0
        }),
{
}

/// A walk goes on as long as it is short of the end of the flight and of the limit
/// on its stops, and counts every stop; nothing else changes.
pub proof fn a_walk_counts_its_stops(walk: CylWalk)
    requires
        walk.iterations <= walk.cap,
    ensures
        walk.advanced().cursor == walk.cursor,
        walk.advanced().total == walk.total,
        walk.advanced().cap == walk.cap,
        walk.advanced().running <==> walk.running && walk.iterations < walk.cap && !walk.total.le(
            walk.cursor,
        ),
        walk.running && walk.iterations < walk.cap ==> walk.advanced().iterations
            == walk.iterations + 1,
        !(walk.running && walk.iterations < walk.cap) ==> walk.advanced().iterations
            == walk.iterations,
        walk.running ==> walk.asks() is Probe,
        !walk.running ==> walk.asks() is Done,
{
}

/// Leaving a cell or entering the mesh moves the walk there, or ends it where that
/// is not short of the end of the flight; the count of stops stays.
pub proof fn a_walk_moves_or_ends(walk: CylWalk, t: Real)
    requires
        !t.is_nan_spec() && !walk.total.is_nan_spec(),
    ensures
        ({
            let l = walk.left(t);
            let e = walk.entered(t);
            &&& l == e
            &&& l.total == walk.total && l.cap == walk.cap && l.iterations == walk.iterations
            &&& t.lt(walk.total) ==> l.cursor == t && l.running == walk.running
            &&& !t.lt(walk.total) ==> l.cursor == walk.cursor && !l.running
        }),
{
}

/// A flight shorter than `2e-8` crosses nothing. Any other is walked from its start,
/// with at most thirty-two stops more than four for each cell along each axis.
pub proof fn a_flight_is_walked_from_its_start<
    L: Fn(Real) -> Option<CylCell>,
    W: Fn(Real, CylCell) -> CellWalls,
    E: Fn(Real) -> Real,
>(shape: CylShape, total: Real, locate: &L, walls: &W, entry: &E, r: Vec<Crossing>)
    requires
        shape.voxels() <= u32::MAX,
        !total.is_nan_spec(),
        forall|t: Real| #[trigger] call_requires(*locate, (t,)),
        forall|t: Real, c: CylCell| #[trigger] call_requires(*walls, (t, c)),
        forall|t: Real| #[trigger] call_requires(*entry, (t,)),
        forall|t: Real, c: CylCell| #[trigger]
            call_ensures(*locate, (t,), Some(c)) ==> in_shape(shape, c),
        call_ensures(cyl_crossings::<L, W, E>, (shape, total, locate, walls, entry), r),
    ensures
        total.lt(Real { bits: 0x3e55_798e_e230_8c3a }) ==> r@.len() == 0,
        !total.lt(Real { bits: 0x3e55_798e_e230_8c3a }) ==> crosses(
            shape,
            (CylWalk {
                cursor: Real { bits: 0 },
                total,
                iterations: 1,
                cap: (4 * (shape.nr + shape.nphi + shape.nz) + 32) as u64,
                running: true,
            }),
            *locate,
            *walls,
            *entry,
            r@,
        ),
{
}

/// What a flight crosses from a stop on. In a cell, the next crossing is that of its
/// voxel, from the stop to what comes first of the cell's walls and the end of the
/// flight, and the walk stops there next. Outside the mesh, it stops next where it
/// enters. At the end of the flight nothing more is crossed.
pub proof fn a_stop_leads_to_the_next<
    L: Fn(Real) -> Option<CylCell>,
    W: Fn(Real, CylCell) -> CellWalls,
    E: Fn(Real) -> Real,
>(shape: CylShape, walk: CylWalk, locate: L, walls: W, entry: E, out: Seq<Crossing>)
    requires
        shape.voxels() <= u32::MAX,
        walk.running,
        walk.iterations <= walk.cap < u64::MAX,
        !walk.total.is_nan_spec(),
        crosses(shape, walk, locate, walls, entry, out),
        forall|t: Real, c: CylCell| #[trigger]
            call_ensures(locate, (t,), Some(c)) ==> in_shape(shape, c),
        forall|t: Real, c: CylCell, w: CellWalls| #[trigger]
            call_ensures(walls, (t, c), w) ==> walls_are_numbers(w),
        forall|t: Real, e: Real| #[trigger] call_ensures(entry, (t,), e) ==> !e.is_nan_spec(),
    ensures
        ({
            let more = walk.iterations < walk.cap;
            let iterations = (walk.iterations + if more {
                1int
            } else {
                0int
            }) as u64;
            ||| exists|c: CylCell, w: CellWalls|
                {
                    &&& call_ensures(locate, (walk.cursor,), Some(c))
                    &&& #[trigger] call_ensures(walls, (walk.cursor, c), w)
                    &&& out.len() > 0
                    &&& out[0].voxel == (c.iz * shape.nphi + c.iphi) * shape.nr + c.ir
                    &&& out[0].from == walk.cursor
                    &&& is_the_first_of(w, walk.total, out[0].to)
                    &&& !out[0].to.lt(walk.total) ==> out.len() == 1
                    &&& out[0].to.lt(walk.total) ==> crosses(
                        shape,
                        CylWalk { cursor: out[0].to, iterations, running: more, ..walk },
                        locate,
                        walls,
                        entry,
                        out.drop_first(),
                    )
                }
            ||| call_ensures(locate, (walk.cursor,), None::<CylCell>) && exists|e: Real|
                {
                    &&& #[trigger] call_ensures(entry, (walk.cursor,), e)
                    &&& !e.lt(walk.total) ==> out.len() == 0
                    &&& e.lt(walk.total) ==> crosses(
                        shape,
                        CylWalk { cursor: e, iterations, running: more, ..walk },
                        locate,
                        walls,
                        entry,
                        out,
                    )
                }
        }),
{
    let more = walk.iterations < walk.cap;
    let iterations = (walk.iterations + if more {
        1int
    } else {
        0int
    }) as u64;
    let cell = choose|cell: Option<CylCell>| #[trigger]
        call_ensures(locate, (walk.cursor,), cell) && match cell {
            Some(c) => exists|w: CellWalls| #[trigger]
                call_ensures(walls, (walk.cursor, c), w) && out.len() > 0 && out[0]
                    == walk.crossing(shape, c, w) && crosses(
                    shape,
                    walk.left(exit_of(w, walk.total)).advanced(),
                    locate,
                    walls,
                    entry,
                    out.drop_first(),
                ),
            None => exists|e: Real| #[trigger]
                call_ensures(entry, (walk.cursor,), e) && crosses(
                    shape,
                    walk.entered(e).advanced(),
                    locate,
                    walls,
                    entry,
                    out,
                ),
        };
    if let Some(c) = cell {
        let w = choose|w: CellWalls| #[trigger]
            call_ensures(walls, (walk.cursor, c), w) && out.len() > 0 && out[0] == walk.crossing(
                shape,
                c,
                w,
            ) && crosses(
                shape,
                walk.left(exit_of(w, walk.total)).advanced(),
                locate,
                walls,
                entry,
                out.drop_first(),
            );
        assert(call_ensures(walls, (walk.cursor, c), w));
        assert(in_shape(shape, c));
        cyl_voxel_in_range(shape, c);
        assert(walls_are_numbers(w));
        let to = exit_of(w, walk.total);
        let next = walk.left(to).advanced();
        if to.lt(walk.total) {
            assert(next == CylWalk { cursor: to, iterations, running: more, ..walk });
        } else {
            assert(!next.running);
            assert(out.drop_first().len() == 0);
        }
    } else {
        let e = choose|e: Real| #[trigger]
            call_ensures(entry, (walk.cursor,), e) && crosses(
                shape,
                walk.entered(e).advanced(),
                locate,
                walls,
                entry,
                out,
            );
        assert(call_ensures(entry, (walk.cursor,), e));
        let next = walk.entered(e).advanced();
        if e.lt(walk.total) {
            assert(next == CylWalk { cursor: e, iterations, running: more, ..walk });
        } else {
            assert(!next.running);
        }
    }
}

/// A point is inside the mesh exactly where it has a voxel and exactly where it has
/// a cell.
pub proof fn inside_is_having_a_voxel(
    params: &[Real],
    shape: CylShape,
    p: Probe,
    within: bool,
    voxel: Option<u32>,
    cell: Option<CylCell>,
)
    requires
        shape.wf(params@),
        call_ensures(cyl_inside, (params, shape, p), within),
        call_ensures(cyl_mesh_bin_at, (params, shape, p), voxel),
        call_ensures(cyl_indices, (params, shape, p), cell),
    ensures
        within <==> voxel is Some,
        within <==> cell is Some,
        within ==> voxel->0 == (cell->0.iz * shape.nphi + cell->0.iphi) * shape.nr + cell->0.ir,
{
    if within {
        let c = cell->0;
        let d = choose|d: CylCell|
            cell_holds(shape, params@, d, p) && voxel->0 == #[trigger] cyl_voxel_of(shape, d);
        assert(cell_holds(shape, params@, d, p));
        cells_are_disjoint(shape.radii(params@), c.ir as int, d.ir as int, p.rho);
        cells_are_disjoint(shape.heights(params@), c.iz as int, d.iz as int, p.z);
        if !on_axis(p) {
            cells_are_disjoint(
                shape.angles(params@),
                c.iphi as int,
                d.iphi as int,
                lookup_angle(shape, params@, p),
            );
        }
        assert(c == d);
    }
}

/// The bracket of a value is the cell that holds it, and past the last cell where none
/// does; a voxel is numbered radius first, then angle, then height.
pub proof fn a_bracket_is_the_cell_around_the_value(
    params: &[Real],
    off: usize,
    n: u32,
    v: Real,
    r: u32,
    shape: CylShape,
    c: CylCell,
    voxel: u32,
)
    requires
        n >= 1,
        off + n + 1 <= params.len(),
        strictly_increasing(params@.subrange(off as int, off + n + 1)),
        call_ensures(cyl_bracket, (params, off, n, v), r),
        shape.voxels() <= u32::MAX,
        c.ir < shape.nr && c.iphi < shape.nphi && c.iz < shape.nz,
        call_ensures(cyl_voxel, (shape, c), voxel),
    ensures
        r < n ==> params@[off + r].le(v) && v.lt(params@[off + r + 1]),
        r >= n <==> !(params@[off as int].le(v) && v.lt(params@[off + n])),
        r <= n,
        voxel == c.ir + shape.nr * (c.iphi + shape.nphi * c.iz),
{
    let g = params@.subrange(off as int, off + n + 1);
    if r < n {
        assert(g[r as int] == params@[off + r]);
        assert(g[r + 1] == params@[off + r + 1]);
    }
    assert((c.iz * shape.nphi + c.iphi) * shape.nr + c.ir == c.ir + shape.nr * (c.iphi + shape.nphi
        * c.iz)) by (nonlinear_arith);
}

} // verus!
