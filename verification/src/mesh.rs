//! Rectangular mesh tallies: the voxel of a point, and the voxels a flight
//! crosses.
//!
//! A mesh is described by fifteen values: lower corner, upper corner, inverse
//! widths, widths and shape, three of each.
use crate::ieee::{order_is_numeric, Real};
use crate::words::{deposit_all, deposited_all, in_range, Deposit};
use vstd::prelude::*;

verus! {

/// Values that describe a rectangular mesh.
pub const RECT_MESH_WORDS: usize = 15;

/// Bit pattern of the distance (`1e300`) that stands for "never".
pub const NEVER_BITS: u64 = 0x7e37_e43c_8800_759c;

/// Bit pattern of its negative.
pub const BEFORE_ALL_BITS: u64 = 0xfe37_e43c_8800_759c;

/// Bit pattern of the shortest scored length (`1e-8`).
pub const TINY_BITS: u64 = 0x3e45_798e_e230_8c3a;

/// Bit pattern of the shortest scored flight, twice the shortest length.
pub const SHORTEST_BITS: u64 = 0x3e55_798e_e230_8c3a;

/// Whether a flight is long enough to be scored.
pub fn is_scored(total: Real) -> (r: bool)
    ensures
        r == !total.lt(Real { bits: SHORTEST_BITS }),
{
    !total.is_lt(Real::new(SHORTEST_BITS))
}

/// Cells along each axis.
#[derive(Clone, Copy, Debug)]
pub struct Shape {
    pub nx: u32,
    pub ny: u32,
    pub nz: u32,
}

impl Shape {
    pub open spec fn voxels(self) -> int {
        self.nx * self.ny * self.nz
    }

    pub open spec fn wf(self) -> bool {
        self.nx >= 1 && self.ny >= 1 && self.nz >= 1 && self.voxels() <= u32::MAX
    }

    /// Cells along an axis (0, 1 or 2).
    pub open spec fn along(self, axis: int) -> int {
        if axis == 0 {
            self.nx as int
        } else if axis == 1 {
            self.ny as int
        } else {
            self.nz as int
        }
    }
}

/// Shape of the mesh described at `mo`.
pub fn rect_shape(params: &[Real], mo: usize) -> (r: Shape)
    requires
        mo + RECT_MESH_WORDS <= params.len(),
    ensures
        r.nx == params@[mo + 12].to_u32_spec(),
        r.ny == params@[mo + 13].to_u32_spec(),
        r.nz == params@[mo + 14].to_u32_spec(),
{
    Shape {
        nx: params[mo + 12].to_u32(),
        ny: params[mo + 13].to_u32(),
        nz: params[mo + 14].to_u32(),
    }
}

/// A coordinate lies in a half-open extent.
pub open spec fn in_extent(lower: Real, upper: Real, v: Real) -> bool {
    !v.lt(lower) && !upper.le(v)
}

/// The point is inside the mesh described at `mo`.
pub open spec fn in_mesh(params: Seq<Real>, mo: int, x: Real, y: Real, z: Real) -> bool {
    &&& in_extent(params[mo], params[mo + 3], x)
    &&& in_extent(params[mo + 1], params[mo + 4], y)
    &&& in_extent(params[mo + 2], params[mo + 5], z)
}

pub fn rect_contains(params: &[Real], mo: usize, x: Real, y: Real, z: Real) -> (r: bool)
    requires
        mo + RECT_MESH_WORDS <= params.len(),
    ensures
        r == in_mesh(params@, mo as int, x, y, z),
{
    !x.is_lt(params[mo]) && !params[mo + 3].is_le(x) && !y.is_lt(params[mo + 1]) && !params[mo
        + 4].is_le(y) && !z.is_lt(params[mo + 2]) && !params[mo + 5].is_le(z)
}

/// Row-major voxel index, the first axis fastest.
pub open spec fn voxel_of(shape: Shape, ix: int, iy: int, iz: int) -> int {
    (iz * shape.ny + iy) * shape.nx + ix
}

/// Voxels of a mesh are numbered below their count.
pub proof fn voxel_in_range(shape: Shape, ix: int, iy: int, iz: int)
    requires
        0 <= ix < shape.nx,
        0 <= iy < shape.ny,
        0 <= iz < shape.nz,
    ensures
        0 <= voxel_of(shape, ix, iy, iz) < shape.voxels(),
        0 <= iz * shape.ny + iy < shape.ny * shape.nz,
{
    let nx = shape.nx as int;
    let ny = shape.ny as int;
    let nz = shape.nz as int;
    let row = iz * ny + iy;
    assert(0 <= row < ny * nz) by (nonlinear_arith)
        requires
            row == iz * ny + iy,
            0 <= iy < ny,
            0 <= iz < nz,
    ;
    assert(0 <= row * nx + ix < nx * (ny * nz)) by (nonlinear_arith)
        requires
            0 <= row < ny * nz,
            0 <= ix < nx,
    ;
    assert(nx * (ny * nz) == nx * ny * nz) by (nonlinear_arith);
}

/// No two cells share a voxel number.
pub proof fn voxels_are_distinct(
    shape: Shape,
    ix: int,
    iy: int,
    iz: int,
    jx: int,
    jy: int,
    jz: int,
)
    requires
        0 <= ix < shape.nx,
        0 <= jx < shape.nx,
        0 <= iy < shape.ny,
        0 <= jy < shape.ny,
        voxel_of(shape, ix, iy, iz) == voxel_of(shape, jx, jy, jz),
    ensures
        ix == jx,
        iy == jy,
        iz == jz,
{
    let nx = shape.nx as int;
    let ny = shape.ny as int;
    vstd::arithmetic::div_mod::lemma_fundamental_div_mod_converse(
        (iz * ny + iy) * nx + ix,
        nx,
        iz * ny + iy,
        ix,
    );
    vstd::arithmetic::div_mod::lemma_fundamental_div_mod_converse(
        (jz * ny + jy) * nx + jx,
        nx,
        jz * ny + jy,
        jx,
    );
    vstd::arithmetic::div_mod::lemma_fundamental_div_mod_converse(iz * ny + iy, ny, iz, iy);
    vstd::arithmetic::div_mod::lemma_fundamental_div_mod_converse(jz * ny + jy, ny, jz, jy);
}

pub fn voxel_index(shape: Shape, ix: u32, iy: u32, iz: u32) -> (r: u32)
    requires
        shape.wf(),
        ix < shape.nx,
        iy < shape.ny,
        iz < shape.nz,
    ensures
        r == voxel_of(shape, ix as int, iy as int, iz as int),
        r < shape.voxels(),
{
    proof {
        lemma_products(shape);
        voxel_in_range(shape, ix as int, iy as int, iz as int);
        assert(iz * shape.ny >= 0) by (nonlinear_arith);
        let row = iz * shape.ny + iy;
        assert(row * shape.nx >= 0) by (nonlinear_arith)
            requires
                row >= 0,
        ;
    }
    (iz * shape.ny + iy) * shape.nx + ix
}

proof fn lemma_products(shape: Shape)
    requires
        shape.wf(),
    ensures
        shape.ny * shape.nz <= u32::MAX,
{
    let nx = shape.nx as int;
    let ny = shape.ny as int;
    let nz = shape.nz as int;
    assert(ny * nz <= nx * ny * nz) by (nonlinear_arith)
        requires
            nx >= 1,
            ny >= 1,
            nz >= 1,
    ;
}

/// A cell number kept inside an axis.
pub open spec fn clamped(raw: u32, n: u32) -> int {
    if raw >= n {
        n - 1
    } else {
        raw as int
    }
}

/// Cell number kept inside an axis of `n` cells.
pub fn clamp_cell(raw: u32, n: u32) -> (r: u32)
    requires
        n >= 1,
    ensures
        r == clamped(raw, n),
        r < n,
{
    if raw >= n {
        n - 1
    } else {
        raw
    }
}

/// Voxel that holds a point, or `None` outside the mesh. `raw` holds the cell
/// numbers of the point before rounding effects at the upper faces are clamped.
pub fn rect_mesh_bin_at(
    params: &[Real],
    mo: usize,
    x: Real,
    y: Real,
    z: Real,
    raw: Shape,
    shape: Shape,
) -> (r: Option<u32>)
    requires
        mo + RECT_MESH_WORDS <= params.len(),
        shape.wf(),
    ensures
        r is Some <==> in_mesh(params@, mo as int, x, y, z),
        r matches Some(v) ==> v < shape.voxels() && v == voxel_of(
            shape,
            clamped(raw.nx, shape.nx),
            clamped(raw.ny, shape.ny),
            clamped(raw.nz, shape.nz),
        ),
{
    if rect_contains(params, mo, x, y, z) {
        let ix: u32 = clamp_cell(raw.nx, shape.nx);
        let iy: u32 = clamp_cell(raw.ny, shape.ny);
        let iz: u32 = clamp_cell(raw.nz, shape.nz);
        Some(voxel_index(shape, ix, iy, iz))
    } else {
        None
    }
}

/// A flight against the extent of one axis: parallel to it, or crossing its two
/// faces at these distances.
#[derive(Clone, Copy, Debug)]
pub enum AxisSpan {
    Parallel { outside: bool },
    Crossing { near: Real, far: Real },
}

pub open spec fn later(a: Real, b: Real) -> Real {
    if a.lt(b) {
        b
    } else {
        a
    }
}

pub open spec fn earlier(a: Real, b: Real) -> Real {
    if b.lt(a) {
        b
    } else {
        a
    }
}

/// Distance at which a flight has entered every extent so far.
pub open spec fn entry_after(t: Real, span: AxisSpan) -> Real {
    match span {
        AxisSpan::Parallel { outside } => t,
        AxisSpan::Crossing { near, far } => later(t, near),
    }
}

pub open spec fn exit_after(t: Real, span: AxisSpan) -> Real {
    match span {
        AxisSpan::Parallel { outside } => t,
        AxisSpan::Crossing { near, far } => earlier(t, far),
    }
}

pub open spec fn misses(span: AxisSpan) -> bool {
    match span {
        AxisSpan::Parallel { outside } => outside,
        AxisSpan::Crossing { near, far } => false,
    }
}

/// Entry distance of a flight of length `total` that starts outside the mesh:
/// the latest entry over the axes, provided it comes before the earliest exit,
/// the exit lies ahead and the entry lies on the flight.
pub open spec fn entry_of(x: AxisSpan, y: AxisSpan, z: AxisSpan, total: Real) -> Option<Real> {
    let enter = entry_after(
        entry_after(entry_after(Real { bits: BEFORE_ALL_BITS }, x), y),
        z,
    );
    let exit = exit_after(exit_after(exit_after(Real { bits: NEVER_BITS }, x), y), z);
    if misses(x) || misses(y) || misses(z) || exit.le(enter) || exit.le(Real { bits: 0 })
        || total.le(enter) {
        None
    } else {
        Some(enter)
    }
}

pub fn segment_entry(x: AxisSpan, y: AxisSpan, z: AxisSpan, total: Real) -> (r: Option<Real>)
    ensures
        r == entry_of(x, y, z, total),
{
    let mut enter: Real = Real::new(BEFORE_ALL_BITS);
    let mut exit: Real = Real::new(NEVER_BITS);
    let mut miss: bool = false;
    match x {
        AxisSpan::Parallel { outside } => {
            if outside {
                miss = true;
            }
        },
        AxisSpan::Crossing { near, far } => {
            if enter.is_lt(near) {
                enter = near;
            }
            if far.is_lt(exit) {
                exit = far;
            }
        },
    }
    match y {
        AxisSpan::Parallel { outside } => {
            if outside {
                miss = true;
            }
        },
        AxisSpan::Crossing { near, far } => {
            if enter.is_lt(near) {
                enter = near;
            }
            if far.is_lt(exit) {
                exit = far;
            }
        },
    }
    match z {
        AxisSpan::Parallel { outside } => {
            if outside {
                miss = true;
            }
        },
        AxisSpan::Crossing { near, far } => {
            if enter.is_lt(near) {
                enter = near;
            }
            if far.is_lt(exit) {
                exit = far;
            }
        },
    }
    if miss || exit.is_le(enter) || exit.is_le(Real::zero()) || total.is_le(enter) {
        None
    } else {
        Some(enter)
    }
}

/// How a flight moves along an axis.
#[derive(Clone, Copy, Debug, PartialEq, Eq, Structural)]
pub enum Travel {
    Forward,
    Backward,
    Parallel,
}

/// One voxel crossed by a flight, between two distances along it.
#[derive(Clone, Copy, Debug)]
pub struct Crossing {
    pub voxel: u32,
    pub from: Real,
    pub to: Real,
}

/// A flight through a mesh: for each axis its direction and the distances of
/// the successive cell faces ahead, and the length of the flight.
pub struct Flight {
    pub tx: Travel,
    pub ty: Travel,
    pub tz: Travel,
    pub faces_x: Vec<Real>,
    pub faces_y: Vec<Real>,
    pub faces_z: Vec<Real>,
    pub total: Real,
}

/// Cells of an axis the flight can still enter, counting the one that takes it
/// out of the mesh.
pub open spec fn faces_ahead(travel: Travel, i: int, n: int) -> int {
    match travel {
        Travel::Forward => n - i,
        Travel::Backward => i + 1,
        Travel::Parallel => 0,
    }
}

/// A place on the way: the cell, the faces passed on each axis and the distance
/// travelled.
#[verifier::ext_equal]
pub struct Place {
    pub ix: int,
    pub iy: int,
    pub iz: int,
    pub kx: int,
    pub ky: int,
    pub kz: int,
    pub travelled: Real,
}

impl Flight {
    /// Distance of the next face on an axis; a parallel axis never has one.
    pub open spec fn next_face(travel: Travel, faces: Seq<Real>, k: int) -> Real {
        match travel {
            Travel::Parallel => Real { bits: NEVER_BITS },
            _ => faces[k],
        }
    }

    pub open spec fn dx(self, p: Place) -> Real {
        Flight::next_face(self.tx, self.faces_x@, p.kx)
    }

    pub open spec fn dy(self, p: Place) -> Real {
        Flight::next_face(self.ty, self.faces_y@, p.ky)
    }

    pub open spec fn dz(self, p: Place) -> Real {
        Flight::next_face(self.tz, self.faces_z@, p.kz)
    }

    /// Axis of the nearest face ahead, the first one among equals.
    pub open spec fn nearest(self, p: Place) -> int {
        let d01 = if self.dy(p).lt(self.dx(p)) {
            self.dy(p)
        } else {
            self.dx(p)
        };
        if self.dz(p).lt(d01) {
            2
        } else if self.dy(p).lt(self.dx(p)) {
            1
        } else {
            0
        }
    }

    pub open spec fn distance(self, p: Place) -> Real {
        let a = self.nearest(p);
        if a == 0 {
            self.dx(p)
        } else if a == 1 {
            self.dy(p)
        } else {
            self.dz(p)
        }
    }

    /// Next cell number along an axis.
    pub open spec fn moved(travel: Travel, i: int) -> int {
        match travel {
            Travel::Forward => i + 1,
            Travel::Backward => i - 1,
            Travel::Parallel => i,
        }
    }

    /// Faces passed along an axis after one more.
    pub open spec fn counted(travel: Travel, k: int) -> int {
        match travel {
            Travel::Parallel => k,
            _ => k + 1,
        }
    }

    /// The place past the nearest face.
    pub open spec fn advanced(self, p: Place) -> Place {
        let a = self.nearest(p);
        let travelled = self.distance(p);
        if a == 0 {
            Place { ix: Flight::moved(self.tx, p.ix), kx: Flight::counted(self.tx, p.kx), travelled, ..p }
        } else if a == 1 {
            Place { iy: Flight::moved(self.ty, p.iy), ky: Flight::counted(self.ty, p.ky), travelled, ..p }
        } else {
            Place { iz: Flight::moved(self.tz, p.iz), kz: Flight::counted(self.tz, p.kz), travelled, ..p }
        }
    }

    pub open spec fn inside(self, shape: Shape, p: Place) -> bool {
        0 <= p.ix < shape.nx && 0 <= p.iy < shape.ny && 0 <= p.iz < shape.nz
    }

    /// The face lists reach to the edge of the mesh from a place.
    pub open spec fn ready(self, shape: Shape, p: Place) -> bool {
        &&& self.inside(shape, p)
        &&& p.kx >= 0 && p.ky >= 0 && p.kz >= 0
        &&& self.tx != Travel::Parallel ==> p.kx + faces_ahead(self.tx, p.ix, shape.nx as int)
            <= self.faces_x@.len()
        &&& self.ty != Travel::Parallel ==> p.ky + faces_ahead(self.ty, p.iy, shape.ny as int)
            <= self.faces_y@.len()
        &&& self.tz != Travel::Parallel ==> p.kz + faces_ahead(self.tz, p.iz, shape.nz as int)
            <= self.faces_z@.len()
    }

    /// The voxel at a place, up to the next face or the end of the flight.
    pub open spec fn crossing(self, shape: Shape, p: Place) -> Crossing {
        Crossing {
            voxel: voxel_of(shape, p.ix, p.iy, p.iz) as u32,
            from: p.travelled,
            to: if self.total.le(self.distance(p)) {
                self.total
            } else {
                self.distance(p)
            },
        }
    }

    /// The voxels crossed from a place on, at most `fuel` of them: the flight
    /// moves past the nearest face until it ends or leaves the mesh.
    pub open spec fn crossings(self, shape: Shape, p: Place, fuel: nat) -> Seq<Crossing>
        decreases fuel,
    {
        if fuel == 0 {
            Seq::empty()
        } else {
            let here = seq![self.crossing(shape, p)];
            let next = self.advanced(p);
            if self.total.le(self.distance(p)) || !self.inside(shape, next) {
                here
            } else {
                here + self.crossings(shape, next, (fuel - 1) as nat)
            }
        }
    }

    /// Faces still ahead over all axes.
    pub open spec fn remaining(self, shape: Shape, p: Place) -> int {
        faces_ahead(self.tx, p.ix, shape.nx as int) + faces_ahead(self.ty, p.iy, shape.ny as int)
            + faces_ahead(self.tz, p.iz, shape.nz as int)
    }

    fn step_along(travel: Travel, i: u32, n: u32) -> (r: Option<u32>)
        requires
            i < n,
        ensures
            r matches Some(j) ==> j == Flight::moved(travel, i as int) && j < n,
            r is None <==> !(0 <= Flight::moved(travel, i as int) < n),
    {
        match travel {
            Travel::Forward => if i + 1 < n {
                Some(i + 1)
            } else {
                None
            },
            Travel::Backward => if i > 0 {
                Some(i - 1)
            } else {
                None
            },
            Travel::Parallel => Some(i),
        }
    }

    fn face(travel: Travel, faces: &Vec<Real>, k: usize) -> (r: Real)
        requires
            travel != Travel::Parallel ==> k < faces@.len(),
        ensures
            r == Flight::next_face(travel, faces@, k as int),
    {
        match travel {
            Travel::Parallel => Real::new(NEVER_BITS),
            _ => faces[k],
        }
    }

    /// Walks the mesh from a starting cell and collects the voxels crossed.
    pub fn walk(&self, shape: Shape, ix: u32, iy: u32, iz: u32, travelled: Real) -> (r: Vec<
        Crossing,
    >)
        requires
            shape.wf(),
            self.ready(
                shape,
                (Place {
                    ix: ix as int,
                    iy: iy as int,
                    iz: iz as int,
                    kx: 0,
                    ky: 0,
                    kz: 0,
                    travelled,
                }),
            ),
        ensures
            r@ == self.crossings(
                shape,
                (Place {
                    ix: ix as int,
                    iy: iy as int,
                    iz: iz as int,
                    kx: 0,
                    ky: 0,
                    kz: 0,
                    travelled,
                }),
                (shape.nx + shape.ny + shape.nz + 8) as nat,
            ),
            forall|i: int| 0 <= i < r@.len() ==> (#[trigger] r@[i]).voxel < shape.voxels(),
    {
        let ghost start = Place {
            ix: ix as int,
            iy: iy as int,
            iz: iz as int,
            kx: 0,
            ky: 0,
            kz: 0,
            travelled,
        };
        let cap: u64 = shape.nx as u64 + shape.ny as u64 + shape.nz as u64 + 8;
        let mut r: Vec<Crossing> = Vec::new();
        let mut cx: u32 = ix;
        let mut cy: u32 = iy;
        let mut cz: u32 = iz;
        let mut kx: usize = 0;
        let mut ky: usize = 0;
        let mut kz: usize = 0;
        let mut done: Real = travelled;
        let mut iter: u64 = 0;
        let mut valid: bool = true;
        let ghost mut p = start;
        assert(r@ + self.crossings(shape, p, cap as nat) =~= self.crossings(
            shape,
            start,
            cap as nat,
        ));
        while valid && iter < cap
            invariant
                shape.wf(),
                iter <= cap,
                cap == shape.nx + shape.ny + shape.nz + 8,
                valid ==> self.ready(shape, p),
                valid ==> p == (Place {
                    ix: cx as int,
                    iy: cy as int,
                    iz: cz as int,
                    kx: kx as int,
                    ky: ky as int,
                    kz: kz as int,
                    travelled: done,
                }),
                valid ==> r@ + self.crossings(shape, p, (cap - iter) as nat) == self.crossings(
                    shape,
                    start,
                    cap as nat,
                ),
                !valid ==> r@ == self.crossings(shape, start, cap as nat),
                forall|i: int| 0 <= i < r@.len() ==> (#[trigger] r@[i]).voxel < shape.voxels(),
            decreases cap - iter,
        {
            let dx: Real = Flight::face(self.tx, &self.faces_x, kx);
            let dy: Real = Flight::face(self.ty, &self.faces_y, ky);
            let dz: Real = Flight::face(self.tz, &self.faces_z, kz);
            let mut nearest: Real = dx;
            let mut axis: u8 = 0;
            if dy.is_lt(nearest) {
                nearest = dy;
                axis = 1;
            }
            if dz.is_lt(nearest) {
                nearest = dz;
                axis = 2;
            }
            let ends: bool = self.total.is_le(nearest);
            let to: Real = if ends {
                self.total
            } else {
                nearest
            };
            let ghost before = r@;
            let ghost fuel = (cap - iter) as nat;
            r.push(Crossing { voxel: voxel_index(shape, cx, cy, cz), from: done, to });
            assert(r@ =~= before + seq![self.crossing(shape, p)]);
            let ghost next = self.advanced(p);
            if ends {
                valid = false;
            } else if axis == 0 {
                match Flight::step_along(self.tx, cx, shape.nx) {
                    Some(j) => {
                        cx = j;
                    },
                    None => {
                        valid = false;
                    },
                }
                kx = Flight::passed(self.tx, kx, &self.faces_x);
            } else if axis == 1 {
                match Flight::step_along(self.ty, cy, shape.ny) {
                    Some(j) => {
                        cy = j;
                    },
                    None => {
                        valid = false;
                    },
                }
                ky = Flight::passed(self.ty, ky, &self.faces_y);
            } else {
                match Flight::step_along(self.tz, cz, shape.nz) {
                    Some(j) => {
                        cz = j;
                    },
                    None => {
                        valid = false;
                    },
                }
                kz = Flight::passed(self.tz, kz, &self.faces_z);
            }
            done = nearest;
            iter = iter + 1;
            proof {
                if valid {
                    assert(before + (seq![self.crossing(shape, p)] + self.crossings(
                        shape,
                        next,
                        (fuel - 1) as nat,
                    )) =~= r@ + self.crossings(shape, next, (fuel - 1) as nat));
                    p = next;
                } else {
                    assert(before + self.crossings(shape, p, fuel) =~= r@);
                }
            }
        }
        proof {
            if valid {
                assert(r@ + self.crossings(shape, p, 0) =~= r@);
            }
        }
        r
    }

    fn passed(travel: Travel, k: usize, faces: &Vec<Real>) -> (r: usize)
        requires
            travel != Travel::Parallel ==> k < faces@.len(),
        ensures
            r == Flight::counted(travel, k as int),
    {
        assert(faces.len() == faces@.len());
        match travel {
            Travel::Parallel => k,
            _ => k + 1,
        }
    }
}

/// The walk stays in the mesh, and the faces lists stay long enough, as long as
/// it goes on.
pub proof fn advancing_stays_ready(f: Flight, shape: Shape, p: Place)
    requires
        f.ready(shape, p),
        f.inside(shape, f.advanced(p)),
    ensures
        f.ready(shape, f.advanced(p)),
{
}

proof fn lemma_remaining_drops(f: Flight, shape: Shape, p: Place)
    requires
        f.ready(shape, p),
        f.total.le(Real { bits: NEVER_BITS }),
        !f.total.le(f.distance(p)),
        f.inside(shape, f.advanced(p)),
    ensures
        f.remaining(shape, f.advanced(p)) == f.remaining(shape, p) - 1,
        f.remaining(shape, f.advanced(p)) >= 1,
{
}

proof fn lemma_fuel_is_enough(f: Flight, shape: Shape, p: Place, a: nat, b: nat)
    requires
        f.ready(shape, p),
        f.total.le(Real { bits: NEVER_BITS }),
        a >= 1,
        b >= 1,
        a >= f.remaining(shape, p),
        b >= f.remaining(shape, p),
    ensures
        f.crossings(shape, p, a) == f.crossings(shape, p, b),
        f.crossings(shape, p, a).len() <= f.remaining(shape, p) || f.crossings(shape, p, a).len()
            <= 1,
    decreases a,
{
    let next = f.advanced(p);
    if !f.total.le(f.distance(p)) && f.inside(shape, next) {
        lemma_remaining_drops(f, shape, p);
        advancing_stays_ready(f, shape, p);
        lemma_fuel_is_enough(f, shape, next, (a - 1) as nat, (b - 1) as nat);
    }
}

/// The bound on the number of crossings never cuts a walk short: a straight
/// flight leaves the mesh, or ends, after fewer crossings than there are cells
/// along the three axes.
pub proof fn walk_is_never_cut_short(f: Flight, shape: Shape, p: Place, more: nat)
    requires
        f.ready(shape, p),
        f.total.le(Real { bits: NEVER_BITS }),
        more >= shape.nx + shape.ny + shape.nz + 8,
    ensures
        f.crossings(shape, p, more) == f.crossings(
            shape,
            p,
            (shape.nx + shape.ny + shape.nz + 8) as nat,
        ),
        f.crossings(shape, p, more).len() <= shape.nx + shape.ny + shape.nz,
{
    lemma_fuel_is_enough(f, shape, p, more, (shape.nx + shape.ny + shape.nz + 8) as nat);
}

/// The voxels of a walk follow each other without gap or overlap: each is left
/// where the next is entered, and the first is entered where the walk starts.
pub proof fn crossings_are_contiguous(f: Flight, shape: Shape, p: Place, fuel: nat)
    requires
        fuel >= 1,
    ensures
        f.crossings(shape, p, fuel).len() >= 1,
        f.crossings(shape, p, fuel)[0].from == p.travelled,
        forall|i: int|
            0 <= i < f.crossings(shape, p, fuel).len() - 1 ==> (#[trigger] f.crossings(
                shape,
                p,
                fuel,
            )[i]).to == f.crossings(shape, p, fuel)[i + 1].from,
    decreases fuel,
{
    let next = f.advanced(p);
    if !f.total.le(f.distance(p)) && f.inside(shape, next) {
        let rest = f.crossings(shape, next, (fuel - 1) as nat);
        let all = f.crossings(shape, p, fuel);
        assert(all == seq![f.crossing(shape, p)] + rest);
        if fuel >= 2 {
            crossings_are_contiguous(f, shape, next, (fuel - 1) as nat);
            assert forall|i: int| 0 <= i < all.len() - 1 implies (#[trigger] all[i]).to == all[i
                + 1].from by {
                if i == 0 {
                    assert(all[1] == rest[0]);
                } else {
                    assert(all[i] == rest[i - 1]);
                    assert(all[i + 1] == rest[i]);
                }
            }
        } else {
            assert(rest.len() == 0);
        }
    }
}

/// Lengths of the crossings added up, as exact numbers in the unit of
/// [`Real::scaled_value`].
pub open spec fn crossed_length(crossings: Seq<Crossing>) -> int
    decreases crossings.len(),
{
    if crossings.len() == 0 {
        0
    } else {
        let c = crossings[0];
        c.to.scaled_value() - c.from.scaled_value() + crossed_length(crossings.drop_first())
    }
}

/// What a flight crosses adds up to no more than its length: exactly to the
/// distance between the start of the walk and the end of its last crossing,
/// which is not past the end of the flight. The numbers are exact; sums that are
/// rounded on the way may exceed them.
pub proof fn crossed_lengths_fit_the_flight(f: Flight, shape: Shape, p: Place, fuel: nat)
    requires
        fuel >= 1,
        f.total.is_finite_spec(),
        forall|i: int|
            0 <= i < f.crossings(shape, p, fuel).len() ==> (#[trigger] f.crossings(
                shape,
                p,
                fuel,
            )[i]).to.is_finite_spec(),
    ensures
        crossed_length(f.crossings(shape, p, fuel)) == f.crossings(
            shape,
            p,
            fuel,
        ).last().to.scaled_value() - p.travelled.scaled_value(),
        crossed_length(f.crossings(shape, p, fuel)) <= f.total.scaled_value()
            - p.travelled.scaled_value(),
    decreases fuel,
{
    let next = f.advanced(p);
    let all = f.crossings(shape, p, fuel);
    let here = f.crossing(shape, p);
    assert(all[0] == here);
    order_is_numeric(here.to, f.total);
    order_is_numeric(f.total, here.to);
    if !f.total.le(f.distance(p)) && f.inside(shape, next) && fuel >= 2 {
        let rest = f.crossings(shape, next, (fuel - 1) as nat);
        assert(all == seq![here] + rest);
        assert(all.drop_first() =~= rest);
        assert forall|i: int| 0 <= i < rest.len() implies (
        #[trigger] rest[i]).to.is_finite_spec() by {
            assert(rest[i] == all[i + 1]);
        }
        crossings_are_contiguous(f, shape, next, (fuel - 1) as nat);
        crossed_lengths_fit_the_flight(f, shape, next, (fuel - 1) as nat);
        assert(all.last() == rest.last());
    } else {
        if fuel == 1 {
            assert(f.crossings(shape, next, 0).len() == 0);
        }
        assert(all =~= seq![here]);
        assert(all.drop_first() =~= Seq::<Crossing>::empty());
        assert(crossed_length(all.drop_first()) == 0);
    }
}

/// Crossing one face changes the cell along one axis only, by at most one.
pub proof fn a_face_leads_to_a_neighbour(f: Flight, p: Place)
    ensures
        ({
            let q = f.advanced(p);
            ||| -1 <= q.ix - p.ix <= 1 && q.iy == p.iy && q.iz == p.iz
            ||| -1 <= q.iy - p.iy <= 1 && q.ix == p.ix && q.iz == p.iz
            ||| -1 <= q.iz - p.iz <= 1 && q.ix == p.ix && q.iy == p.iy
        }),
{
}

/// What the crossings of a flight score: each voxel crossed for longer than the
/// shortest scored length receives its word.
pub open spec fn scores_of(
    first: int,
    crossings: Seq<Crossing>,
    lengths: Seq<Real>,
    words: Seq<u64>,
) -> Seq<Deposit>
    decreases crossings.len(),
{
    if crossings.len() == 0 {
        Seq::empty()
    } else {
        let k = crossings.len() - 1;
        let rest = scores_of(first, crossings.drop_last(), lengths, words);
        if (Real { bits: TINY_BITS }).lt(lengths[k]) {
            rest.push(Deposit { slot: (first + crossings[k].voxel) as usize, word: words[k] })
        } else {
            rest
        }
    }
}

/// Deposits of the crossings of a flight. `first` is the slot of the bin's first
/// voxel; `lengths` and `words` hold each crossing's length and contribution.
pub fn crossing_scores(
    first: usize,
    n_mesh: u32,
    crossings: &[Crossing],
    lengths: &[Real],
    words: &[u64],
) -> (r: Vec<Deposit>)
    requires
        lengths.len() == crossings.len(),
        words.len() == crossings.len(),
        first + n_mesh <= usize::MAX,
        forall|i: int| 0 <= i < crossings.len() ==> (#[trigger] crossings@[i]).voxel < n_mesh,
    ensures
        r@ == scores_of(first as int, crossings@, lengths@, words@),
        in_range(r@, (first + n_mesh) as nat),
{
    let mut r: Vec<Deposit> = Vec::new();
    let mut i: usize = 0;
    assert(crossings@.subrange(0, 0) =~= Seq::<Crossing>::empty());
    while i < crossings.len()
        invariant
            i <= crossings.len(),
            lengths.len() == crossings.len(),
            words.len() == crossings.len(),
            first + n_mesh <= usize::MAX,
            forall|i: int| 0 <= i < crossings.len() ==> (#[trigger] crossings@[i]).voxel < n_mesh,
            r@ == scores_of(first as int, crossings@.subrange(0, i as int), lengths@, words@),
            in_range(r@, (first + n_mesh) as nat),
        decreases crossings.len() - i,
    {
        assert(crossings@.subrange(0, i + 1).drop_last() =~= crossings@.subrange(0, i as int));
        assert(crossings@[i as int].voxel < n_mesh);
        if Real::new(TINY_BITS).is_lt(lengths[i]) {
            r.push(Deposit { slot: first + crossings[i].voxel as usize, word: words[i] });
        }
        i = i + 1;
    }
    assert(crossings@.subrange(0, i as int) =~= crossings@);
    r
}

/// Scores the crossings of a flight.
pub fn score_crossings(
    acc: &mut Vec<u64>,
    first: usize,
    n_mesh: u32,
    crossings: &[Crossing],
    lengths: &[Real],
    words: &[u64],
)
    requires
        lengths.len() == crossings.len(),
        words.len() == crossings.len(),
        first + n_mesh <= old(acc)@.len(),
        forall|i: int| 0 <= i < crossings.len() ==> (#[trigger] crossings@[i]).voxel < n_mesh,
    ensures
        final(acc)@.len() == old(acc)@.len(),
        final(acc)@ == deposited_all(
            old(acc)@,
            scores_of(first as int, crossings@, lengths@, words@),
        ),
{
    assert(acc.len() == acc@.len());
    let ds = crossing_scores(first, n_mesh, crossings, lengths, words);
    assert(in_range(ds@, acc@.len()));
    deposit_all(acc, ds.as_slice());
}

/// Distance of the next face ahead along one axis; a flight parallel to the axis
/// has none, which counts as `1e300`.
pub open spec fn ahead(travel: Travel, faces: Seq<Real>, k: int) -> Real {
    if travel == Travel::Parallel {
        Real { bits: 0x7e37_e43c_8800_759c }
    } else {
        faces[k]
    }
}

/// The crossing is the one of the voxel at `p`: it begins where the flight has
/// got to, and ends no farther than the next face on any of the three axes and
/// no farther than the flight, at one of these four.
pub open spec fn crosses(f: Flight, shape: Shape, p: Place, c: Crossing) -> bool {
    let x = ahead(f.tx, f.faces_x@, p.kx);
    let y = ahead(f.ty, f.faces_y@, p.ky);
    let z = ahead(f.tz, f.faces_z@, p.kz);
    &&& 0 <= p.ix < shape.nx && 0 <= p.iy < shape.ny && 0 <= p.iz < shape.nz
    &&& c.voxel == (p.iz * shape.ny + p.iy) * shape.nx + p.ix
    &&& c.from == p.travelled
    &&& c.to.le(x) && c.to.le(y) && c.to.le(z) && c.to.le(f.total)
    &&& c.to == x || c.to == y || c.to == z || c.to == f.total
}

/// One cell along an axis, in the direction of the flight.
pub open spec fn one_on(travel: Travel, i: int, j: int) -> bool {
    ||| travel == Travel::Forward && j == i + 1
    ||| travel == Travel::Backward && j == i - 1
}

/// The flight goes on from `p` to `q` through the face that ends the crossing: the
/// cell changes by one along the axis of that face and along no other. Where
/// faces are met at once, x goes before y and y before z.
pub open spec fn goes_on(f: Flight, p: Place, c: Crossing, q: Place) -> bool {
    let x = ahead(f.tx, f.faces_x@, p.kx);
    let y = ahead(f.ty, f.faces_y@, p.ky);
    let z = ahead(f.tz, f.faces_z@, p.kz);
    &&& c.to.lt(f.total)
    &&& q.travelled == c.to
    &&& {
        ||| {
            &&& c.to == x && x.le(y) && x.le(z)
            &&& one_on(f.tx, p.ix, q.ix) && q.kx == p.kx + 1
            &&& q.iy == p.iy && q.iz == p.iz && q.ky == p.ky && q.kz == p.kz
        }
        ||| {
            &&& c.to == y && y.lt(x) && y.le(z)
            &&& one_on(f.ty, p.iy, q.iy) && q.ky == p.ky + 1
            &&& q.ix == p.ix && q.iz == p.iz && q.kx == p.kx && q.kz == p.kz
        }
        ||| {
            &&& c.to == z && z.lt(x) && z.lt(y)
            &&& one_on(f.tz, p.iz, q.iz) && q.kz == p.kz + 1
            &&& q.ix == p.ix && q.iy == p.iy && q.kx == p.kx && q.ky == p.ky
        }
    }
}

/// The crossings follow a route through the mesh: a place for each, each reached
/// from the one before through the face between them, and none left out at the
/// end, which is the end of the flight or a face of the mesh.
pub open spec fn follows(f: Flight, shape: Shape, places: Seq<Place>, r: Seq<Crossing>) -> bool {
    &&& places.len() == r.len() + 1
    &&& r.len() >= 1
    &&& forall|i: int| 0 <= i < r.len() ==> crosses(f, shape, places[i], #[trigger] r[i])
    &&& forall|i: int|
        0 <= i < r.len() - 1 ==> goes_on(f, places[i], #[trigger] r[i], places[i + 1])
    &&& {
        let c = r[r.len() - 1];
        let p = places[r.len() - 1];
        let q = places[r.len() as int];
        ||| c.to.eqv(f.total)
        ||| goes_on(f, p, c, q) && !(0 <= q.ix < shape.nx && 0 <= q.iy < shape.ny && 0 <= q.iz
            < shape.nz)
    }
}

/// No face distance is undefined.
pub open spec fn faces_are_numbers(f: Flight) -> bool {
    &&& forall|k: int| 0 <= k < f.faces_x@.len() ==> !(#[trigger] f.faces_x@[k]).is_nan_spec()
    &&& forall|k: int| 0 <= k < f.faces_y@.len() ==> !(#[trigger] f.faces_y@[k]).is_nan_spec()
    &&& forall|k: int| 0 <= k < f.faces_z@.len() ==> !(#[trigger] f.faces_z@[k]).is_nan_spec()
}

proof fn lemma_crosses(f: Flight, shape: Shape, p: Place)
    requires
        shape.wf(),
        f.ready(shape, p),
        faces_are_numbers(f),
        f.total.le(Real { bits: NEVER_BITS }),
    ensures
        crosses(f, shape, p, f.crossing(shape, p)),
        f.total.le(f.distance(p)) ==> f.crossing(shape, p).to == f.total,
        !f.total.le(f.distance(p)) ==> goes_on(f, p, f.crossing(shape, p), f.advanced(p)),
        !f.total.le(f.distance(p)) && f.inside(shape, f.advanced(p)) ==> f.remaining(
            shape,
            f.advanced(p),
        ) == f.remaining(shape, p) - 1,
        f.remaining(shape, p) >= 0,
{
    voxel_in_range(shape, p.ix, p.iy, p.iz);
}

proof fn lemma_follows(f: Flight, shape: Shape, p: Place, fuel: nat) -> (places: Seq<Place>)
    requires
        shape.wf(),
        f.ready(shape, p),
        faces_are_numbers(f),
        f.total.le(Real { bits: NEVER_BITS }),
        fuel > f.remaining(shape, p),
    ensures
        follows(f, shape, places, f.crossings(shape, p, fuel)),
        places[0] == p,
    decreases fuel,
{
    lemma_crosses(f, shape, p);
    let c = f.crossing(shape, p);
    let next = f.advanced(p);
    let all = f.crossings(shape, p, fuel);
    if f.total.le(f.distance(p)) || !f.inside(shape, next) {
        let places = seq![p, next];
        assert(all =~= seq![c]);
        assert(places[1] == next);
        places
    } else {
        advancing_stays_ready(f, shape, p);
        let rest = f.crossings(shape, next, (fuel - 1) as nat);
        let behind = lemma_follows(f, shape, next, (fuel - 1) as nat);
        let places = seq![p] + behind;
        assert(all == seq![c] + rest);
        assert forall|i: int| 0 <= i < all.len() implies crosses(
            f,
            shape,
            places[i],
            #[trigger] all[i],
        ) by {
            if i > 0 {
                assert(all[i] == rest[i - 1]);
                assert(places[i] == behind[i - 1]);
            }
        }
        assert forall|i: int| 0 <= i < all.len() - 1 implies goes_on(
            f,
            places[i],
            #[trigger] all[i],
            places[i + 1],
        ) by {
            if i > 0 {
                assert(all[i] == rest[i - 1]);
                assert(places[i] == behind[i - 1]);
                assert(places[i + 1] == behind[i]);
            } else {
                assert(places[1] == behind[0]);
            }
        }
        assert(all[all.len() - 1] == rest[rest.len() - 1]);
        assert(places[all.len() - 1] == behind[rest.len() - 1]);
        assert(places[all.len() as int] == behind[rest.len() as int]);
        places
    }
}

/// A flight walks the mesh face by face: from the cell it starts in, every
/// crossing ends at the nearest face ahead on any of the three axes, the next
/// one is that of the neighbour behind this face, and the walk is over only at
/// the end of the flight or outside the mesh.
pub proof fn a_walk_turns_at_the_nearest_face(
    f: &Flight,
    shape: Shape,
    ix: u32,
    iy: u32,
    iz: u32,
    travelled: Real,
    r: Vec<Crossing>,
)
    requires
        shape.wf(),
        f.ready(
            shape,
            (Place { ix: ix as int, iy: iy as int, iz: iz as int, kx: 0, ky: 0, kz: 0, travelled }),
        ),
        faces_are_numbers(*f),
        f.total.le(Real { bits: 0x7e37_e43c_8800_759c }),
        call_ensures(Flight::walk, (f, shape, ix, iy, iz, travelled), r),
    ensures
        exists|places: Seq<Place>| #[trigger]
            follows(*f, shape, places, r@) && places[0].ix == ix && places[0].iy == iy
                && places[0].iz == iz && places[0].kx == 0 && places[0].ky == 0 && places[0].kz == 0
                && places[0].travelled == travelled,
{
    let p = Place { ix: ix as int, iy: iy as int, iz: iz as int, kx: 0, ky: 0, kz: 0, travelled };
    let places = lemma_follows(*f, shape, p, (shape.nx + shape.ny + shape.nz + 8) as nat);
    assert(follows(*f, shape, places, r@));
}

/// A point has a voxel exactly where it is in the box, lower faces counted in and
/// upper ones out. The voxel is that of its cell along each axis, x running
/// fastest, and a cell index past the last counts as the last.
pub proof fn a_point_has_the_voxel_of_its_cells(
    params: &[Real],
    mo: usize,
    x: Real,
    y: Real,
    z: Real,
    raw: Shape,
    shape: Shape,
    r: Option<u32>,
)
    requires
        mo + 15 <= params.len(),
        shape.wf(),
        forall|i: int| mo <= i < mo + 6 ==> !(#[trigger] params@[i]).is_nan_spec(),
        !x.is_nan_spec() && !y.is_nan_spec() && !z.is_nan_spec(),
        call_ensures(rect_mesh_bin_at, (params, mo, x, y, z, raw, shape), r),
    ensures
        r is Some <==> {
            &&& params@[mo as int].le(x) && x.lt(params@[mo + 3])
            &&& params@[mo + 1].le(y) && y.lt(params@[mo + 4])
            &&& params@[mo + 2].le(z) && z.lt(params@[mo + 5])
        },
        r is Some ==> exists|jx: int, jy: int, jz: int|
            {
                &&& r->0 == #[trigger] ((jz * shape.ny + jy) * shape.nx + jx)
                &&& raw.nx < shape.nx ==> jx == raw.nx
                &&& raw.nx >= shape.nx ==> jx == shape.nx - 1
                &&& raw.ny < shape.ny ==> jy == raw.ny
                &&& raw.ny >= shape.ny ==> jy == shape.ny - 1
                &&& raw.nz < shape.nz ==> jz == raw.nz
                &&& raw.nz >= shape.nz ==> jz == shape.nz - 1
            },
{
    assert(!params@[mo as int].is_nan_spec());
    assert(!params@[mo + 1].is_nan_spec() && !params@[mo + 2].is_nan_spec());
    assert(!params@[mo + 3].is_nan_spec() && !params@[mo + 4].is_nan_spec());
    assert(!params@[mo + 5].is_nan_spec());
    if r is Some {
        let jx = clamped(raw.nx, shape.nx);
        let jy = clamped(raw.ny, shape.ny);
        let jz = clamped(raw.nz, shape.nz);
        assert(r->0 == (jz * shape.ny + jy) * shape.nx + jx);
    }
}

/// What one axis asks of the way into the box: the distance of the face on the
/// near side, and of the one on the far side.
pub open spec fn near_of(span: AxisSpan) -> Real {
    match span {
        AxisSpan::Parallel { outside } => Real { bits: 0xfe37_e43c_8800_759c },
        AxisSpan::Crossing { near, far } => near,
    }
}

pub open spec fn far_of(span: AxisSpan) -> Real {
    match span {
        AxisSpan::Parallel { outside } => Real { bits: 0x7e37_e43c_8800_759c },
        AxisSpan::Crossing { near, far } => far,
    }
}

/// The near and far faces of an axis are numbers between `-1e300` and `1e300`.
pub open spec fn spans_numbers(span: AxisSpan) -> bool {
    &&& (Real { bits: 0xfe37_e43c_8800_759c }).le(near_of(span))
    &&& far_of(span).le(Real { bits: 0x7e37_e43c_8800_759c })
    &&& !near_of(span).is_nan_spec() && !far_of(span).is_nan_spec()
}

/// A flight enters a box where the last of its near faces is behind it: it does
/// so exactly where it runs beside the box on no axis, every near face comes
/// before every far face and before the flight's end, and no far face is behind
/// the start.
pub proof fn a_flight_enters_behind_the_last_near_face(
    x: AxisSpan,
    y: AxisSpan,
    z: AxisSpan,
    total: Real,
    r: Option<Real>,
)
    requires
        spans_numbers(x) && spans_numbers(y) && spans_numbers(z) && !total.is_nan_spec(),
        call_ensures(segment_entry, (x, y, z, total), r),
    ensures
        r is Some <==> {
            &&& !(x is Parallel && x->outside)
            &&& !(y is Parallel && y->outside)
            &&& !(z is Parallel && z->outside)
            &&& near_of(x).lt(far_of(x)) && near_of(x).lt(far_of(y)) && near_of(x).lt(far_of(z))
            &&& near_of(y).lt(far_of(x)) && near_of(y).lt(far_of(y)) && near_of(y).lt(far_of(z))
            &&& near_of(z).lt(far_of(x)) && near_of(z).lt(far_of(y)) && near_of(z).lt(far_of(z))
            &&& near_of(x).lt(total) && near_of(y).lt(total) && near_of(z).lt(total)
            &&& (Real { bits: 0 }).lt(far_of(x))
            &&& (Real { bits: 0 }).lt(far_of(y))
            &&& (Real { bits: 0 }).lt(far_of(z))
        },
        r matches Some(t) ==> {
            &&& near_of(x).le(t) && near_of(y).le(t) && near_of(z).le(t)
            &&& t.eqv(near_of(x)) || t.eqv(near_of(y)) || t.eqv(near_of(z))
        },
{
}

/// A flight is scored on a mesh unless it is shorter than `2e-8`.
pub proof fn short_flights_are_not_scored(total: Real, r: bool)
    requires
        call_ensures(is_scored, (total,), r),
    ensures
        !r <==> total.lt(Real { bits: 0x3e55_798e_e230_8c3a }),
{
}

/// One more crossing adds one deposit, its word in its voxel's bin, behind those of
/// the crossings before it, unless it is no longer than `1e-8`.
pub proof fn a_flight_deposits_crossing_by_crossing(
    first: int,
    crossings: Seq<Crossing>,
    lengths: Seq<Real>,
    words: Seq<u64>,
    c: Crossing,
    length: Real,
    w: u64,
)
    requires
        lengths.len() == crossings.len(),
        words.len() == crossings.len(),
        0 <= first,
        first + c.voxel <= usize::MAX,
    ensures
        scores_of(first, Seq::empty(), Seq::empty(), Seq::empty()).len() == 0,
        ({
            let before = scores_of(first, crossings, lengths, words);
            let after = scores_of(first, crossings.push(c), lengths.push(length), words.push(w));
            let last = after[before.len() as int];
            &&& forall|i: int| 0 <= i < before.len() ==> #[trigger] after[i] == before[i]
            &&& (Real { bits: 0x3e45_798e_e230_8c3a }).lt(length) ==> after.len() == before.len() + 1
                && last.slot == first + c.voxel && last.word == w
            &&& !(Real { bits: 0x3e45_798e_e230_8c3a }).lt(length) ==> after.len() == before.len()
        }),
{
    lemma_scores_prefix(first, crossings, lengths, words, lengths.push(length), words.push(w));
    assert(crossings.push(c).drop_last() =~= crossings);
}

proof fn lemma_scores_prefix(
    first: int,
    crossings: Seq<Crossing>,
    lengths: Seq<Real>,
    words: Seq<u64>,
    lengths2: Seq<Real>,
    words2: Seq<u64>,
)
    requires
        forall|i: int| 0 <= i < crossings.len() ==> #[trigger] lengths2[i] == lengths[i],
        forall|i: int| 0 <= i < crossings.len() ==> #[trigger] words2[i] == words[i],
    ensures
        scores_of(first, crossings, lengths2, words2) == scores_of(first, crossings, lengths, words),
    decreases crossings.len(),
{
    if crossings.len() > 0 {
        lemma_scores_prefix(first, crossings.drop_last(), lengths, words, lengths2, words2);
        let k = crossings.len() - 1;
        assert(lengths2[k] == lengths[k] && words2[k] == words[k]);
    }
}

/// A mesh has its counts at words twelve to fourteen, holds the points of its box
/// without the upper faces, and numbers its voxels x first, then y, then z.
pub proof fn a_mesh_numbers_its_voxels(
    params: &[Real],
    mo: usize,
    shape: Shape,
    p: Shape,
    v: u32,
    raw: u32,
    n: u32,
    cell: u32,
)
    requires
        mo + 15 <= params.len(),
        call_ensures(rect_shape, (params, mo), shape),
        shape.wf(),
        p.nx < shape.nx && p.ny < shape.ny && p.nz < shape.nz,
        call_ensures(voxel_index, (shape, p.nx, p.ny, p.nz), v),
        n >= 1,
        call_ensures(clamp_cell, (raw, n), cell),
    ensures
        shape.nx == params@[mo + 12].to_u32_spec(),
        shape.ny == params@[mo + 13].to_u32_spec(),
        shape.nz == params@[mo + 14].to_u32_spec(),
        v == p.nx + shape.nx * (p.ny + shape.ny * p.nz),
        raw < n ==> cell == raw,
        raw >= n ==> cell == n - 1,
{
    assert((p.nz * shape.ny + p.ny) * shape.nx + p.nx == p.nx + shape.nx * (p.ny + shape.ny * p.nz))
        by (nonlinear_arith);
}

/// A point is in the box from the lower faces up to the upper ones, which are out.
pub proof fn the_box_leaves_out_its_upper_faces(
    params: &[Real],
    mo: usize,
    x: Real,
    y: Real,
    z: Real,
    r: bool,
)
    requires
        mo + 15 <= params.len(),
        forall|i: int| mo <= i < mo + 6 ==> !(#[trigger] params@[i]).is_nan_spec(),
        !x.is_nan_spec() && !y.is_nan_spec() && !z.is_nan_spec(),
        call_ensures(rect_contains, (params, mo, x, y, z), r),
    ensures
        r <==> {
            &&& params@[mo as int].le(x) && x.lt(params@[mo + 3])
            &&& params@[mo + 1].le(y) && y.lt(params@[mo + 4])
            &&& params@[mo + 2].le(z) && z.lt(params@[mo + 5])
        },
{
    assert(!params@[mo as int].is_nan_spec());
    assert(!params@[mo + 1].is_nan_spec() && !params@[mo + 2].is_nan_spec());
    assert(!params@[mo + 3].is_nan_spec() && !params@[mo + 4].is_nan_spec());
    assert(!params@[mo + 5].is_nan_spec());
}

/// The deposits of a flight are those of its crossings, one by one.
pub proof fn crossings_are_scored_in_order(
    first: usize,
    n_mesh: u32,
    crossings: &[Crossing],
    lengths: &[Real],
    words: &[u64],
    r: Vec<Deposit>,
)
    requires
        lengths.len() == crossings.len(),
        words.len() == crossings.len(),
        first + n_mesh <= usize::MAX,
        call_ensures(crossing_scores, (first, n_mesh, crossings, lengths, words), r),
        forall|i: int| 0 <= i < crossings.len() ==> (#[trigger] crossings@[i]).voxel < n_mesh,
    ensures
        (forall|i: int|
            0 <= i < lengths.len() ==> (Real { bits: 0x3e45_798e_e230_8c3a }).lt(#[trigger] lengths@[i]))
            ==> r@.len() == crossings@.len() && forall|i: int|
            0 <= i < r@.len() ==> (#[trigger] r@[i]).slot == first + crossings@[i].voxel && r@[i].word
                == words@[i],
        (forall|i: int|
            0 <= i < lengths.len() ==> !(Real { bits: 0x3e45_798e_e230_8c3a }).lt(
                #[trigger] lengths@[i],
            )) ==> r@.len() == 0,
{
    lemma_scores_all(first as int, crossings@, lengths@, words@);
}

proof fn lemma_scores_all(
    first: int,
    crossings: Seq<Crossing>,
    lengths: Seq<Real>,
    words: Seq<u64>,
)
    requires
        0 <= first,
        forall|i: int| 0 <= i < crossings.len() ==> first + (#[trigger] crossings[i]).voxel <= usize::MAX,
    ensures
        ({
            let tiny = Real { bits: 0x3e45_798e_e230_8c3a };
            let r = scores_of(first, crossings, lengths, words);
            &&& (forall|i: int| 0 <= i < crossings.len() ==> tiny.lt(#[trigger] lengths[i]))
                ==> r.len() == crossings.len() && forall|i: int|
                0 <= i < r.len() ==> (#[trigger] r[i]).slot == first + crossings[i].voxel && r[i].word
                    == words[i]
            &&& (forall|i: int| 0 <= i < crossings.len() ==> !tiny.lt(#[trigger] lengths[i]))
                ==> r.len() == 0
        }),
    decreases crossings.len(),
{
    if crossings.len() > 0 {
        let rest = crossings.drop_last();
        assert forall|i: int| 0 <= i < rest.len() implies first + (#[trigger] rest[i]).voxel
            <= usize::MAX by {
            assert(rest[i] == crossings[i]);
        }
        lemma_scores_all(first, rest, lengths, words);
        let k = crossings.len() - 1;
        let before = scores_of(first, rest, lengths, words);
        let r = scores_of(first, crossings, lengths, words);
        assert(first + crossings[k].voxel <= usize::MAX);
        if forall|i: int|
            0 <= i < crossings.len() ==> (Real { bits: 0x3e45_798e_e230_8c3a }).lt(#[trigger] lengths[i]) {
            assert((Real { bits: 0x3e45_798e_e230_8c3a }).lt(lengths[k]));
            assert forall|i: int| 0 <= i < r.len() implies (#[trigger] r[i]).slot == first
                + crossings[i].voxel && r[i].word == words[i] by {
                if i < before.len() {
                    assert(r[i] == before[i]);
                    assert(rest[i] == crossings[i]);
                }
            }
        }
        if forall|i: int|
            0 <= i < crossings.len() ==> !(Real { bits: 0x3e45_798e_e230_8c3a }).lt(
                #[trigger] lengths[i],
            ) {
            assert(!(Real { bits: 0x3e45_798e_e230_8c3a }).lt(lengths[k]));
        }
    }
}

} // verus!
