//! Cell search and tally meshes.
use yamc_transport::bvh::{box_holds_point, first_inside, Bvh, Point};
use yamc_transport::cyl::{
    cell_exit, cyl_bracket, cyl_crossings, cyl_first_entry, cyl_indices, cyl_inside,
    cyl_mesh_bin_at, cyl_phi_crossing, cyl_shape, cyl_shell_crossing, cyl_voxel, entry_faces,
    event_past, exit_plane, plane_entries, shell_entries, CellWalls, CylAction, CylCell, CylEvent,
    CylShape, CylWalk, EntryCandidate, Face, Probe,
};
use yamc_transport::ieee::Real;
use yamc_transport::layout::CELL_NOT_FOUND;
use yamc_transport::mesh::{
    clamp_cell, crossing_scores, is_scored, rect_contains, rect_mesh_bin_at, rect_shape,
    score_crossings, segment_entry, voxel_index, AxisSpan, Crossing, Flight, Shape, Travel,
    NEVER_BITS, SHORTEST_BITS, TINY_BITS,
};

fn num(x: f64) -> Real {
    Real::new(x.to_bits())
}

fn nums(xs: &[f64]) -> Vec<Real> {
    xs.iter().map(|x| num(*x)).collect()
}

fn point(x: f64, y: f64, z: f64) -> Point {
    Point {
        x: num(x),
        y: num(y),
        z: num(z),
    }
}

/// Three boxes in a row along x, the last two under one inner node.
fn tree() -> Bvh {
    let unit = |x: f64| vec![x, 0.0, 0.0, x + 1.0, 1.0, 1.0];
    let mut cells = unit(0.0);
    cells.extend(unit(1.0));
    cells.extend(unit(2.0));
    let mut nodes = vec![0.0, 0.0, 0.0, 3.0, 1.0, 1.0];
    nodes.extend(unit(0.0));
    nodes.extend(vec![1.0, 0.0, 0.0, 3.0, 1.0, 1.0]);
    Bvh {
        aabbs: nums(&nodes),
        meta: vec![0, 0, 3, 0, 1, 2, 1, 2, 3],
        prims: vec![0, 1, 2],
        unbounded: vec![3],
        cell_aabbs: nums(&[&cells[..], &[-1.0e30, -1.0e30, -1.0e30, 1.0e30, 1.0e30, 1.0e30][..]].concat()),
    }
}

#[test]
fn search_gives_the_boxes_that_hold_the_point() {
    let t = tree();
    assert_eq!(t.candidates(point(0.5, 0.5, 0.5)), vec![0, 3]);
    assert_eq!(t.candidates(point(2.5, 0.5, 0.5)), vec![2, 3]);
    // On a shared face both neighbours are candidates.
    assert_eq!(t.candidates(point(1.0, 0.5, 0.5)), vec![0, 1, 3]);
    // Outside the tree the unbounded cell is left.
    assert_eq!(t.candidates(point(9.0, 0.5, 0.5)), vec![3]);
}

#[test]
fn box_includes_its_faces() {
    let boxes = nums(&[0.0, 0.0, 0.0, 1.0, 1.0, 1.0]);
    assert!(box_holds_point(&boxes, 0, point(0.0, 1.0, 0.5)));
    assert!(!box_holds_point(&boxes, 0, point(1.1, 0.5, 0.5)));
}

#[test]
fn first_candidate_whose_region_holds_the_point_is_the_cell() {
    assert_eq!(first_inside(&[4, 2, 7], &[false, true, true]), 2);
    assert_eq!(first_inside(&[4, 2], &[false, false]), CELL_NOT_FOUND);
    assert_eq!(first_inside(&[], &[]), CELL_NOT_FOUND);
}

/// Bounds 0 to 4 by 0 to 2 by 0 to 1, in 4 by 2 by 1 voxels.
fn rect_params() -> Vec<Real> {
    nums(&[
        0.0, 0.0, 0.0, 4.0, 2.0, 1.0, 1.0, 1.0, 1.0, 1.0, 1.0, 1.0, 4.0, 2.0, 1.0,
    ])
}

#[test]
fn voxels_are_numbered_without_gaps() {
    let shape = rect_shape(&rect_params(), 0);
    assert_eq!((shape.nx, shape.ny, shape.nz), (4, 2, 1));
    let mut seen = vec![false; 8];
    for iz in 0..shape.nz {
        for iy in 0..shape.ny {
            for ix in 0..shape.nx {
                let v = voxel_index(shape, ix, iy, iz) as usize;
                assert!(!seen[v]);
                seen[v] = true;
            }
        }
    }
    assert!(seen.iter().all(|s| *s));
}

#[test]
fn mesh_excludes_its_upper_faces() {
    let p = rect_params();
    assert!(rect_contains(&p, 0, num(0.0), num(0.0), num(0.0)));
    assert!(!rect_contains(&p, 0, num(4.0), num(0.5), num(0.5)));
    assert!(!rect_contains(&p, 0, num(-0.1), num(0.5), num(0.5)));
}

#[test]
fn point_in_a_mesh_has_its_voxel() {
    let p = rect_params();
    let shape = rect_shape(&p, 0);
    let raw = Shape { nx: 2, ny: 1, nz: 0 };
    let v = rect_mesh_bin_at(&p, 0, num(2.5), num(1.5), num(0.5), raw, shape);
    assert_eq!(v, Some(voxel_index(shape, 2, 1, 0)));
    // A raw index past the end is taken as the last one.
    let raw = Shape { nx: 4, ny: 1, nz: 0 };
    let v = rect_mesh_bin_at(&p, 0, num(3.9999), num(1.5), num(0.5), raw, shape);
    assert_eq!(v, Some(voxel_index(shape, 3, 1, 0)));
    assert_eq!(
        rect_mesh_bin_at(&p, 0, num(4.0), num(1.5), num(0.5), raw, shape),
        None
    );
}

#[test]
fn segment_enters_where_it_is_inside_all_slabs() {
    let x = AxisSpan::Crossing {
        near: num(1.0),
        far: num(5.0),
    };
    let y = AxisSpan::Crossing {
        near: num(2.0),
        far: num(6.0),
    };
    let z = AxisSpan::Parallel { outside: false };
    assert_eq!(segment_entry(x, y, z, num(10.0)), Some(num(2.0)));
    // Too short, past it, or beside it.
    assert_eq!(segment_entry(x, y, z, num(1.5)), None);
    let late = AxisSpan::Crossing {
        near: num(5.5),
        far: num(6.0),
    };
    assert_eq!(segment_entry(x, late, z, num(10.0)), None);
    assert_eq!(
        segment_entry(x, y, AxisSpan::Parallel { outside: true }, num(10.0)),
        None
    );
}

#[test]
fn flight_crosses_its_voxels_in_order() {
    let shape = Shape { nx: 4, ny: 2, nz: 1 };
    // Along x from 0.5 at y = 0.5: faces at 0.5, 1.5, 2.5, 3.5.
    let f = Flight {
        tx: Travel::Forward,
        ty: Travel::Parallel,
        tz: Travel::Parallel,
        faces_x: nums(&[0.5, 1.5, 2.5, 3.5]),
        faces_y: vec![],
        faces_z: vec![],
        total: num(2.0),
    };
    let crossings = f.walk(shape, 0, 0, 0, num(0.0));
    let got: Vec<(u32, f64, f64)> = crossings
        .iter()
        .map(|c| (c.voxel, f64::from_bits(c.from.bits), f64::from_bits(c.to.bits)))
        .collect();
    assert_eq!(got, vec![(0, 0.0, 0.5), (1, 0.5, 1.5), (2, 1.5, 2.0)]);
}

#[test]
fn flight_that_leaves_the_mesh_stops_there() {
    let shape = Shape { nx: 2, ny: 1, nz: 1 };
    let f = Flight {
        tx: Travel::Backward,
        ty: Travel::Parallel,
        tz: Travel::Parallel,
        faces_x: nums(&[0.25, 1.25]),
        faces_y: vec![],
        faces_z: vec![],
        total: num(9.0),
    };
    let crossings = f.walk(shape, 1, 0, 0, num(0.0));
    let got: Vec<(u32, f64)> = crossings
        .iter()
        .map(|c| (c.voxel, f64::from_bits(c.to.bits)))
        .collect();
    assert_eq!(got, vec![(1, 0.25), (0, 1.25)]);
}

#[test]
fn crossings_score_into_their_voxels() {
    let mut acc = vec![0u64; 6];
    let crossings = [
        Crossing { voxel: 0, from: num(0.0), to: num(0.5) },
        Crossing { voxel: 3, from: num(0.5), to: num(0.5) },
        Crossing { voxel: 2, from: num(0.5), to: num(2.0) },
    ];
    let lengths = nums(&[0.5, 0.0, 1.5]);
    score_crossings(&mut acc, 2, 4, &crossings, &lengths, &[5, 6, u64::MAX]);
    // A crossing without length scores nothing; words wrap.
    assert_eq!(acc, vec![0, 0, 5, 0, u64::MAX, 0]);
}

/// Two radial, two angular and two axial cells over the full turn.
fn cylinder() -> (Vec<Real>, CylShape) {
    let turn = std::f64::consts::TAU;
    let params = nums(&[
        0.0, 0.0, 0.0, 2.0, 2.0, 2.0, 1.0, // origin, counts, full turn
        0.0, 1.0, 3.0, // radii
        0.0, 1.0, 9.0, // radii squared
        0.0, turn / 2.0, turn, // angles
        -1.0, 0.0, 1.0, // heights
    ]);
    let shape = cyl_shape(&params, 0);
    (params, shape)
}

fn probe(rho: f64, phi: f64, z: f64) -> Probe {
    Probe {
        rho: num(rho),
        phi: num(phi),
        phi_top: num(std::f64::consts::TAU * (1.0 - 1.0e-12)),
        z: num(z),
    }
}

#[test]
fn cylinder_header_gives_its_tables() {
    let (_, s) = cylinder();
    assert_eq!((s.nr, s.nphi, s.nz, s.full_phi), (2, 2, 2, true));
    assert_eq!((s.r_off, s.rsq_off, s.phi_off, s.z_off), (7, 10, 13, 16));
}

#[test]
fn cylinder_bracket_is_half_open() {
    let (p, s) = cylinder();
    assert_eq!(cyl_bracket(&p, s.r_off, 2, num(0.0)), 0);
    assert_eq!(cyl_bracket(&p, s.r_off, 2, num(1.0)), 1);
    assert_eq!(cyl_bracket(&p, s.r_off, 2, num(3.0)), 2);
    assert_eq!(cyl_bracket(&p, s.r_off, 2, num(-0.1)), 2);
    assert_eq!(cyl_bracket(&p, s.r_off, 2, num(f64::NAN)), 2);
}

#[test]
fn cylinder_cells_hold_their_points() {
    let (p, s) = cylinder();
    let c = cyl_indices(&p, s, probe(2.0, 4.0, 0.5)).unwrap();
    assert_eq!((c.ir, c.iphi, c.iz), (1, 1, 1));
    assert!(cyl_inside(&p, s, probe(2.0, 4.0, 0.5)));
    assert!(!cyl_inside(&p, s, probe(3.0, 4.0, 0.5)));
    assert!(!cyl_inside(&p, s, probe(2.0, 4.0, 1.0)));
    assert_eq!(
        cyl_mesh_bin_at(&p, s, probe(2.0, 4.0, 0.5)),
        Some(cyl_voxel(s, CylCell { ir: 1, iphi: 1, iz: 1 }))
    );
    assert_eq!(cyl_mesh_bin_at(&p, s, probe(9.0, 4.0, 0.5)), None);
    // An angle rounded up to the full turn is in the last cell.
    let c = cyl_indices(&p, s, probe(0.5, std::f64::consts::TAU, -0.5)).unwrap();
    assert_eq!((c.ir, c.iphi, c.iz), (0, 1, 0));
}

#[test]
fn cylinder_voxels_are_numbered_without_gaps() {
    let (_, s) = cylinder();
    let mut seen = vec![false; 8];
    for ir in 0..2 {
        for iphi in 0..2 {
            for iz in 0..2 {
                let v = cyl_voxel(s, CylCell { ir, iphi, iz }) as usize;
                assert!(!seen[v]);
                seen[v] = true;
            }
        }
    }
    assert!(seen.iter().all(|s| *s));
}

#[test]
fn walls_are_crossed_past_the_threshold_or_never() {
    let never = Real::new(NEVER_BITS);
    let shell = |near: f64, far: f64, threshold: f64| {
        cyl_shell_crossing(
            num(1.0),
            num(1.0),
            num(1.0),
            num(near),
            num(far),
            num(threshold),
        )
    };
    assert_eq!(shell(1.0, 2.0, 0.5), num(1.0));
    assert_eq!(shell(1.0, 2.0, 1.0), num(2.0));
    assert_eq!(shell(1.0, 2.0, 2.0), never);
    // No shell at the axis, none along it, none that is missed.
    let z = num(0.0);
    let one = num(1.0);
    assert_eq!(cyl_shell_crossing(z, one, one, one, one, z), never);
    assert_eq!(cyl_shell_crossing(one, z, one, one, one, z), never);
    assert_eq!(cyl_shell_crossing(one, one, num(-1.0), one, one, z), never);
    assert_eq!(cyl_phi_crossing(one, num(2.0), one, one), num(2.0));
    assert_eq!(cyl_phi_crossing(one, num(2.0), one, num(-1.0)), never);
    assert_eq!(event_past(one, num(2.0), one), num(2.0));
    assert_eq!(event_past(one, one, one), never);
}

#[test]
fn cell_is_left_at_the_soonest_event() {
    let never = Real::new(NEVER_BITS);
    let walls = CellWalls {
        inner: never,
        outer: num(3.0),
        phi_lo: num(2.0),
        phi_hi: never,
        plane: num(2.5),
        perigee: never,
    };
    assert_eq!(cell_exit(walls, num(10.0)), num(2.0));
    assert_eq!(cell_exit(walls, num(1.0)), num(1.0));
}

#[test]
fn first_entry_is_the_soonest_that_leads_inside() {
    let (p, s) = cylinder();
    let candidates = [
        EntryCandidate { t: num(4.0), probe: probe(2.0, 1.0, 0.0) },
        EntryCandidate { t: num(1.0), probe: probe(5.0, 1.0, 0.0) },
        EntryCandidate { t: num(2.0), probe: probe(2.9, 1.0, 0.0) },
    ];
    let t = cyl_first_entry(&p, s, &candidates, num(0.0), num(9.0));
    assert_eq!(t, num(2.0));
    let t = cyl_first_entry(&p, s, &candidates, num(2.0), num(9.0));
    assert_eq!(t, num(4.0));
    let t = cyl_first_entry(&p, s, &candidates, num(2.0), num(3.0));
    assert_eq!(t, Real::new(NEVER_BITS));
}

#[test]
fn cylinder_walk_moves_its_cursor_to_the_end() {
    let (_, s) = cylinder();
    let mut walk = CylWalk::start(s, num(3.0));
    assert!(walk.advance());
    let c = walk.leave(5, num(1.0));
    assert_eq!((c.voxel, c.from, c.to), (5, num(0.0), num(1.0)));
    assert!(walk.advance());
    walk.enter(num(2.0));
    assert_eq!(walk.cursor, num(2.0));
    assert!(walk.advance());
    walk.leave(6, num(3.0));
    assert!(!walk.advance());
    // A flight too short to score does not start.
    assert!(!CylWalk::start(s, num(0.0)).advance());
}

#[test]
fn crossing_deposits_are_those_that_are_scored() {
    let crossings = [
        Crossing { voxel: 1, from: num(0.0), to: num(1.0e-8) },
        Crossing { voxel: 3, from: num(0.5), to: num(1.5) },
    ];
    let lengths = nums(&[1.0e-8, 1.0]);
    let ds = crossing_scores(10, 4, &crossings, &lengths, &[7, 9]);
    let got: Vec<(usize, u64)> = ds.iter().map(|d| (d.slot, d.word)).collect();
    // A length of exactly the shortest one is not scored.
    assert_eq!(got, vec![(13, 9)]);
}

#[test]
fn shortest_flight_is_twice_the_shortest_length() {
    assert_eq!(TINY_BITS, 1.0e-8f64.to_bits());
    assert_eq!(SHORTEST_BITS, 2.0e-8f64.to_bits());
    assert!(is_scored(num(2.0e-8)));
    assert!(!is_scored(num(1.9e-8)));
    assert!(!is_scored(num(0.0)));
}

#[test]
fn cell_numbers_are_kept_inside_the_mesh() {
    assert_eq!(clamp_cell(0, 3), 0);
    assert_eq!(clamp_cell(2, 3), 2);
    assert_eq!(clamp_cell(3, 3), 2);
    assert_eq!(clamp_cell(u32::MAX, 1), 0);
}

#[test]
fn hierarchy_check_finds_what_does_not_fit() {
    assert!(tree().is_wf());
    let mut t = tree();
    t.meta.pop();
    assert!(!t.is_wf());
    // Rejection has to move forward.
    let mut t = tree();
    t.meta[2] = 0;
    assert!(!t.is_wf());
    // Leaves name existing primitives, and those name existing cells.
    let mut t = tree();
    t.prims.pop();
    assert!(!t.is_wf());
    let mut t = tree();
    t.prims[0] = 4;
    assert!(!t.is_wf());
    let mut t = tree();
    t.unbounded.push(4);
    assert!(!t.is_wf());
}

#[test]
fn cylinder_check_finds_what_does_not_fit() {
    let (params, shape) = cylinder();
    assert!(shape.is_wf(&params));
    assert!(!shape.is_wf(&params[..params.len() - 1]));
    let mut moved = shape;
    moved.phi_off += 1;
    assert!(!moved.is_wf(&params));
    let mut empty = shape;
    empty.nz = 0;
    assert!(!empty.is_wf(&params));
    let mut many = shape;
    many.nr = u32::MAX;
    assert!(!many.is_wf(&params));
    // Faces have to increase.
    let mut flat = params.clone();
    flat[shape.z_off + 1] = flat[shape.z_off];
    assert!(!shape.is_wf(&flat));
    let mut unordered = params.clone();
    unordered[shape.r_off] = num(f64::NAN);
    assert!(!shape.is_wf(&unordered));
}

#[test]
fn flight_enters_through_the_outer_faces() {
    let (_, mut s) = cylinder();
    s.full_phi = true;
    let ends = vec![Face::Plane { index: 0 }, Face::Plane { index: s.nz as usize }];
    let shells = vec![Face::Shell { index: 0 }, Face::Shell { index: s.nr as usize }];
    assert_eq!(entry_faces(s), [shells.clone(), ends.clone()].concat());
    s.full_phi = false;
    let walls = vec![Face::Wall { index: 0 }, Face::Wall { index: s.nphi as usize }];
    assert_eq!(entry_faces(s), [shells, walls, ends].concat());
    let cell = CylCell { ir: 0, iphi: 0, iz: 3 };
    assert_eq!((exit_plane(cell, true), exit_plane(cell, false)), (4, 3));
}

#[test]
fn faces_that_are_missed_give_no_entry() {
    let (zero, one) = (num(0.0), num(1.0));
    let both = nums(&[-1.0, 1.0]);
    assert_eq!(shell_entries(one, one, zero, num(-1.0), one), both);
    assert!(shell_entries(zero, one, one, num(-1.0), one).is_empty());
    assert!(shell_entries(one, num(1.0e-15), one, num(-1.0), one).is_empty());
    assert!(shell_entries(one, one, num(-0.5), num(-1.0), one).is_empty());
    assert_eq!(plane_entries(one, num(4.0)), nums(&[4.0]));
    assert!(plane_entries(num(1.0e-15), num(4.0)).is_empty());
}

#[test]
fn cylinder_walk_measures_inside_and_enters_from_outside() {
    let (_, s) = cylinder();
    let never = Real::new(NEVER_BITS);
    let walls = |t: f64| CellWalls {
        inner: never,
        outer: num(t),
        phi_lo: never,
        phi_hi: never,
        plane: never,
        perigee: never,
    };
    let cell = CylCell { ir: 0, iphi: 0, iz: 0 };
    let mut walk = CylWalk::start(s, num(3.0));
    assert!(matches!(walk.step(s, CylEvent::Begin), (CylAction::Probe, None)));
    let asked = walk.step(s, CylEvent::Probed { found: None });
    assert!(matches!(asked, (CylAction::Enter, None)));
    let asked = walk.step(s, CylEvent::Entered { entry: num(1.0) });
    assert!(matches!(asked, (CylAction::Probe, None)));
    let asked = walk.step(s, CylEvent::Probed { found: Some(cell) });
    assert!(matches!(asked, (CylAction::Measure { .. }, None)));
    let (action, crossing) = walk.step(s, CylEvent::Measured { cell, walls: walls(2.0) });
    assert!(matches!(action, CylAction::Probe));
    let c = crossing.unwrap();
    assert_eq!((c.voxel, c.from, c.to), (0, num(1.0), num(2.0)));
    // The next cell lasts to the end of the flight.
    let (action, crossing) = walk.step(s, CylEvent::Measured { cell, walls: walls(9.0) });
    assert!(matches!(action, CylAction::Done));
    assert_eq!(crossing.unwrap().to, num(3.0));
    // An entry past the flight ends it.
    let mut walk = CylWalk::start(s, num(3.0));
    walk.step(s, CylEvent::Begin);
    let asked = walk.step(s, CylEvent::Entered { entry: never });
    assert!(matches!(asked, (CylAction::Done, None)));
}

#[test]
fn whole_flight_crosses_voxels_in_order() {
    let (_, s) = cylinder();
    let never = Real::new(NEVER_BITS);
    // Outside up to 1, one cell up to 2, the next up to the end at 3.
    let locate = |t: Real| {
        let t = f64::from_bits(t.bits);
        if t < 1.0 {
            None
        } else {
            Some(CylCell { ir: if t < 2.0 { 0 } else { 1 }, iphi: 0, iz: 0 })
        }
    };
    let walls = |_: Real, c: CylCell| CellWalls {
        inner: never,
        outer: if c.ir == 0 { num(2.0) } else { never },
        phi_lo: never,
        phi_hi: never,
        plane: never,
        perigee: never,
    };
    let entry = |_: Real| num(1.0);
    let crossed = cyl_crossings(s, num(3.0), &locate, &walls, &entry);
    let got: Vec<(u32, Real, Real)> = crossed.iter().map(|c| (c.voxel, c.from, c.to)).collect();
    assert_eq!(got, vec![(0, num(1.0), num(2.0)), (1, num(2.0), num(3.0))]);
    let length = |c: &Crossing| f64::from_bits(c.to.bits) - f64::from_bits(c.from.bits);
    assert_eq!(crossed.iter().map(length).sum::<f64>(), 2.0);
    // A flight that never enters crosses nothing.
    let nowhere = |_: Real| None;
    let past = |_: Real| never;
    assert!(cyl_crossings(s, num(3.0), &nowhere, &walls, &past).is_empty());
}
