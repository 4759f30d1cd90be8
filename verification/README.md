# yamc_transport

Multi-cell Monte Carlo neutron transport: the decisions, layouts and bookkeeping
of a transport run, written in Rust and proved with Verus.

A run follows neutrons from cell to cell through a geometry, lets them collide,
scores what they do into tallies, and transports the neutrons that collisions
emit. The library holds everything about a run that is not floating-point
arithmetic. A number appears in it as its bit pattern (`ieee::Real`), compared
the way IEEE 754 compares numbers; sums, products and roots are computed by the
caller and handed in.

## Layout

- `src/` is the library, all of it verified.
  - `ieee`: numbers as bit patterns and their order.
  - `layout`: the columns and codes of the packed tables.
  - `lookup`, `band`, `reaction`, `roulette`: grid brackets, sparse rows and
    resonance bands, the choice of nuclide, reaction, slot and spectrum, and the
    weight cutoff.
  - `pend`, `history`, `transport`: the queue of secondaries, the state of a
    history, and the machine that turns what the host found into what it does
    next.
  - `alike`, `events`, `course`: what holds of every history, whatever the host
    finds: what it records and loses, and that neither traces nor photons nor the
    order of the queue change what it scores.
  - `bvh`, `mesh`, `cyl`: the search for the cell of a point, and the voxels that
    a flight crosses.
  - `tally`, `words`, `spill`: the bins that an event scores, the fixed-point
    accumulators, and the per-history totals.
  - `bank`, `emission`: the particle bank and the photons of a collision.
  - `pack`, `decay`, `photon`, `lengths`, `validate`, `guards`: packing and
    checking of the tables.
  - `launch`, `bytes`: sizes of a launch's buffers, what is read back from it,
    and words as bytes.
  - `drivers`, `run`, `result`: runs of many histories, one by one or in parallel
    chunks, and their results.
  - `compare`: runs that report the same, and runs that add up.
- `tests/` runs the library on concrete values.
- `app/` evaluates the floating-point physics around the library, on the host,
  and moves buffers to and from a device.
