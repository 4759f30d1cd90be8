//! Secondary photons of a collision.
//!
//! A collision emits photons from a random stream of its own, forked from the
//! neutron's, so that emitting photons leaves the neutron's walk as it is.
//! Prompt photons are sampled one by one, up to a cap; a decay photon is one
//! line of one channel of the struck material.
use crate::bank::{lemma_append_keeps_blank, Bank, BankRecord};
use crate::decay::{
    packed_channels_are_the_materials_own, DecayPhotonInputs, MaterialDecayTable,
};
use crate::ieee::Real;
use crate::layout::{DECAY_META_COLS, MAX_PHOTONS_PER_COLLISION};
use crate::pend::Particle;
use vstd::prelude::*;

verus! {

/// Mixed into the neutron's state to fork the stream of prompt photons.
pub const PHOTON_STREAM_KEY: u64 = 0x9E37_79B9_7F4A_7C15;

/// Mixed into the neutron's state to fork the stream of decay photons.
pub const DECAY_STREAM_KEY: u64 = 0xFF51_AFD7_ED55_8CCD;

/// State from which the stream of a collision's prompt photons is stepped.
pub fn photon_stream(state: u64) -> (r: u64)
    ensures
        r == state ^ PHOTON_STREAM_KEY,
{
    state ^ PHOTON_STREAM_KEY
}

/// State from which the stream of a collision's decay photon is stepped.
pub fn decay_stream(state: u64) -> (r: u64)
    ensures
        r == state ^ DECAY_STREAM_KEY,
{
    state ^ DECAY_STREAM_KEY
}

/// The neutron, the prompt photons and the decay photon of a collision draw
/// from three different states, and different neutron states fork different
/// photon states.
pub proof fn streams_are_apart(a: u64, b: u64)
    ensures
        a ^ PHOTON_STREAM_KEY != a,
        a ^ DECAY_STREAM_KEY != a,
        a ^ PHOTON_STREAM_KEY != a ^ DECAY_STREAM_KEY,
        a != b ==> a ^ PHOTON_STREAM_KEY != b ^ PHOTON_STREAM_KEY,
        a != b ==> a ^ DECAY_STREAM_KEY != b ^ DECAY_STREAM_KEY,
{
    assert(a ^ 0x9E37_79B9_7F4A_7C15u64 != a) by (bit_vector);
    assert(a ^ 0xFF51_AFD7_ED55_8CCDu64 != a) by (bit_vector);
    assert(a ^ 0x9E37_79B9_7F4A_7C15u64 != a ^ 0xFF51_AFD7_ED55_8CCDu64) by (bit_vector);
    assert(a != b ==> a ^ 0x9E37_79B9_7F4A_7C15u64 != b ^ 0x9E37_79B9_7F4A_7C15u64)
        by (bit_vector);
    assert(a != b ==> a ^ 0xFF51_AFD7_ED55_8CCDu64 != b ^ 0xFF51_AFD7_ED55_8CCDu64)
        by (bit_vector);
}

/// Photons to sample at a collision that yields `n_photons`: no more than the
/// cap.
pub fn photon_attempts(n_photons: u32) -> (r: u32)
    ensures
        r == if n_photons <= MAX_PHOTONS_PER_COLLISION {
            n_photons
        } else {
            MAX_PHOTONS_PER_COLLISION
        },
{
    if n_photons <= MAX_PHOTONS_PER_COLLISION {
        n_photons
    } else {
        MAX_PHOTONS_PER_COLLISION
    }
}

/// The sampled photons that are real: those with a positive energy. A product
/// without an outgoing distribution gives none.
pub open spec fn emitted(attempts: Seq<BankRecord<Real>>) -> Seq<BankRecord<Real>>
    decreases attempts.len(),
{
    if attempts.len() == 0 {
        Seq::empty()
    } else if attempts.last().energy.positive() {
        emitted(attempts.drop_last()).push(attempts.last())
    } else {
        emitted(attempts.drop_last())
    }
}

/// The first `n` of the records, or all if there are fewer.
pub open spec fn at_most(records: Seq<BankRecord<Real>>, n: nat) -> Seq<BankRecord<Real>> {
    if records.len() <= n {
        records
    } else {
        records.take(n as int)
    }
}

fn copy_record(a: &BankRecord<Real>) -> (r: BankRecord<Real>)
    ensures
        r == *a,
{
    BankRecord {
        energy: a.energy,
        px: a.px,
        py: a.py,
        pz: a.pz,
        dx: a.dx,
        dy: a.dy,
        dz: a.dz,
        weight: a.weight,
        ptype: a.ptype,
        cell: a.cell,
        seed: a.seed,
        gen: a.gen,
        source_idx: a.source_idx,
    }
}

/// Banks the photons sampled at a collision, but for those without energy.
pub fn bank_photons(bank: &mut Bank<Real>, attempts: &[BankRecord<Real>])
    requires
        old(bank).wf(),
        old(bank).count + attempts.len() <= u64::MAX,
    ensures
        final(bank).wf(),
        final(bank).capacity == old(bank).capacity,
        final(bank).count == old(bank).count + emitted(attempts@).len(),
        final(bank).records() == at_most(
            old(bank).records() + emitted(attempts@),
            old(bank).capacity as nat,
        ),
        final(bank).same_from(*old(bank), old(bank).count + emitted(attempts@).len()),
        old(bank).count >= old(bank).capacity ==> final(bank).same_words(*old(bank)),
        emitted(attempts@).len() == 0 ==> *final(bank) == *old(bank),
        forall|zero: Real|
            old(bank).blank_past_records(zero) ==> #[trigger] final(bank).blank_past_records(zero),
{
    let ghost before = *bank;
    let mut i: usize = 0;
    assert(attempts@.take(0) =~= Seq::empty());
    assert(before.records() + emitted(attempts@.take(0)) =~= before.records());
    while i < attempts.len()
        invariant
            i <= attempts.len(),
            before.count + attempts.len() <= u64::MAX,
            bank.wf(),
            bank.capacity == before.capacity,
            emitted(attempts@.take(i as int)).len() <= i,
            bank.count == before.count + emitted(attempts@.take(i as int)).len(),
            bank.records() == at_most(
                before.records() + emitted(attempts@.take(i as int)),
                before.capacity as nat,
            ),
            bank.same_from(before, before.count + emitted(attempts@.take(i as int)).len()),
            before.count >= before.capacity ==> bank.same_words(before),
            emitted(attempts@.take(i as int)).len() == 0 ==> *bank == before,
            forall|zero: Real|
                before.blank_past_records(zero) ==> #[trigger] bank.blank_past_records(zero),
        decreases attempts.len() - i,
    {
        let ghost so_far = emitted(attempts@.take(i as int));
        proof {
            assert(attempts@.take(i + 1).drop_last() =~= attempts@.take(i as int));
        }
        if attempts[i].energy.is_positive() {
            let ghost held = *bank;
            bank.append(copy_record(&attempts[i]));
            proof {
                assert forall|zero: Real| before.blank_past_records(zero) implies #[trigger]
                    bank.blank_past_records(zero) by {
                    assert(held.blank_past_records(zero));
                    lemma_append_keeps_blank(held, *bank, attempts@[i as int], zero);
                }
                let now = so_far.push(attempts@[i as int]);
                assert(before.records() + now =~= (before.records() + so_far).push(
                    attempts@[i as int],
                ));
                assert(bank.records() =~= at_most(before.records() + now, before.capacity as nat));
            }
        }
        i = i + 1;
    }
    assert(attempts@.take(i as int) =~= attempts@);
}

/// Where a material's decay data stands in the packed buffers.
#[derive(Clone, Copy, Debug, PartialEq, Eq, Structural)]
pub struct DecayRange {
    /// Start of the aggregate row.
    pub pp_base: u32,
    /// First channel.
    pub ch_base: u32,
    /// Number of channels.
    pub ch_count: u32,
}

/// Decay data of material `mat`.
pub fn decay_range(meta: &[u32], mat: usize) -> (r: DecayRange)
    requires
        (mat + 1) * DECAY_META_COLS <= meta.len(),
    ensures
        r.pp_base == meta@[mat * DECAY_META_COLS],
        r.ch_base == meta@[mat * DECAY_META_COLS + 1],
        r.ch_count == meta@[mat * DECAY_META_COLS + 2],
{
    assert((mat + 1) * DECAY_META_COLS == mat * DECAY_META_COLS + 3 && mat * DECAY_META_COLS == mat
        * 3);
    let at: usize = mat * DECAY_META_COLS;
    DecayRange { pp_base: meta[at], ch_base: meta[at + 1], ch_count: meta[at + 2] }
}

/// First line and number of lines of a packed channel.
pub fn line_range(e_meta: &[u32], channel: usize) -> (r: (u32, u32))
    requires
        2 * channel + 1 < e_meta.len(),
    ensures
        r.0 == e_meta@[2 * channel],
        r.1 == e_meta@[2 * channel + 1],
{
    (e_meta[2 * channel], e_meta[2 * channel + 1])
}

/// A collision emits a decay photon where its material has channels and a
/// positive production.
pub fn emits_decay_photon(production: Real, ch_count: u32) -> (r: bool)
    ensures
        r == (production.positive() && ch_count > 0),
{
    production.is_positive() && ch_count > 0
}

/// Channel `c` is the first with a positive cross section whose running sum
/// exceeds the cutoff.
pub open spec fn first_past_cutoff(
    xs: Seq<Real>,
    sums: Seq<Real>,
    cutoff: Real,
    c: int,
) -> bool {
    &&& 0 <= c < xs.len()
    &&& xs[c].positive()
    &&& cutoff.lt(sums[c])
    &&& forall|j: int| 0 <= j < c ==> !((#[trigger] xs[j]).positive() && cutoff.lt(sums[j]))
}

/// Picks a channel by the cutoff: of the channels with a positive cross section
/// the first whose running sum exceeds it, or else the last of them. With none
/// at all it is the last channel. `sums[i]` is the sum of the positive cross
/// sections up to channel `i`.
pub fn select_channel(xs: &[Real], sums: &[Real], cutoff: Real) -> (r: usize)
    requires
        xs.len() > 0,
        sums.len() == xs.len(),
    ensures
        r < xs.len(),
        (exists|c: int| first_past_cutoff(xs@, sums@, cutoff, c)) ==> first_past_cutoff(
            xs@,
            sums@,
            cutoff,
            r as int,
        ),
        !(exists|c: int| first_past_cutoff(xs@, sums@, cutoff, c)) ==> {
            ||| xs@[r as int].positive() && forall|j: int|
                r < j < xs.len() ==> !(#[trigger] xs@[j]).positive()
            ||| r == xs.len() - 1 && forall|j: int|
                0 <= j < xs.len() ==> !(#[trigger] xs@[j]).positive()
        },
{
    let mut sel: usize = xs.len() - 1;
    let mut i: usize = 0;
    while i < xs.len()
        invariant
            i <= xs.len(),
            sel < xs.len(),
            sums.len() == xs.len(),
            forall|j: int| 0 <= j < i ==> !((#[trigger] xs@[j]).positive() && cutoff.lt(sums@[j])),
            ({
                ||| sel < i && xs@[sel as int].positive() && forall|j: int|
                    sel < j < i ==> !(#[trigger] xs@[j]).positive()
                ||| sel == xs.len() - 1 && forall|j: int|
                    0 <= j < i ==> !(#[trigger] xs@[j]).positive()
            }),
        decreases xs.len() - i,
    {
        if xs[i].is_positive() {
            sel = i;
            if cutoff.is_lt(sums[i]) {
                assert(first_past_cutoff(xs@, sums@, cutoff, sel as int));
                return sel;
            }
        }
        i = i + 1;
    }
    sel
}

/// Line `i` is the first of the lines whose cumulative intensity reaches `xi`,
/// or the last of them.
pub open spec fn is_line(cdf: Seq<Real>, xi: Real, i: int) -> bool {
    &&& 0 <= i < cdf.len()
    &&& forall|j: int| 0 <= j < i ==> !xi.le(#[trigger] cdf[j])
    &&& i + 1 < cdf.len() ==> xi.le(cdf[i])
}

/// Picks a line of the `count` from `base` on.
pub fn select_line(cdf: &[Real], base: usize, count: usize, xi: Real) -> (r: usize)
    requires
        count > 0,
        base + count <= cdf.len(),
    ensures
        is_line(cdf@.subrange(base as int, base + count), xi, r as int),
{
    let ghost lines = cdf@.subrange(base as int, base + count);
    let mut i: usize = 0;
    while i + 1 < count
        invariant
            i < count,
            base + count <= cdf.len(),
            lines == cdf@.subrange(base as int, base + count),
            forall|j: int| 0 <= j < i ==> !xi.le(#[trigger] lines[j]),
        decreases count - i,
    {
        assert(lines[i as int] == cdf@[base + i]);
        if xi.is_le(cdf[base + i]) {
            return i;
        }
        i = i + 1;
    }
    i
}

/// A sampled decay photon.
#[derive(Clone, Copy, Debug)]
pub struct DecayPhoton {
    pub energy: Real,
    /// Radionuclide that it comes from.
    pub parent: u32,
}

/// `photon` is the line that `xi` picks of packed channel `k`.
pub open spec fn is_photon_of(inputs: DecayPhotonInputs, k: int, xi: Real, photon: DecayPhoton) -> bool {
    let base = inputs.ch_e_meta@[2 * k] as int;
    let count = inputs.ch_e_meta@[2 * k + 1] as int;
    &&& photon.parent == inputs.ch_parent_id@[k]
    &&& exists|i: int|
        #[trigger] is_line(inputs.ch_intensity_cdf@.subrange(base, base + count), xi, i)
            && photon.energy == inputs.ch_energies@[base + i]
}

/// Samples the line of a material's channel number `sel`.
pub fn decay_photon(inputs: &DecayPhotonInputs, range: DecayRange, sel: u32, xi: Real) -> (r:
    DecayPhoton)
    requires
        range.ch_base + sel < inputs.ch_parent_id.len(),
        2 * (range.ch_base + sel) + 1 < inputs.ch_e_meta.len(),
        inputs.ch_e_meta@[2 * (range.ch_base + sel) + 1] > 0,
        inputs.ch_e_meta@[2 * (range.ch_base + sel)] + inputs.ch_e_meta@[2 * (range.ch_base + sel)
            + 1] <= inputs.ch_intensity_cdf.len(),
        inputs.ch_energies@.len() == inputs.ch_intensity_cdf@.len(),
    ensures
        is_photon_of(*inputs, range.ch_base + sel, xi, r),
{
    let k: usize = range.ch_base as usize + sel as usize;
    let (base, count) = line_range(inputs.ch_e_meta.as_slice(), k);
    let i: usize = select_line(
        inputs.ch_intensity_cdf.as_slice(),
        base as usize,
        count as usize,
        xi,
    );
    DecayPhoton { energy: inputs.ch_energies[base as usize + i], parent: inputs.ch_parent_id[k] }
}

/// A decay photon sampled in material `m` has the parent of the chosen channel
/// of that material, and the energy of one of that channel's lines.
pub proof fn decay_photon_is_the_materials_own(
    inputs: DecayPhotonInputs,
    tables: Seq<MaterialDecayTable>,
    n_grid: nat,
    m: int,
    sel: int,
    xi: Real,
    photon: DecayPhoton,
)
    requires
        inputs.packs(tables, n_grid),
        forall|j: int| 0 <= j < tables.len() ==> (#[trigger] tables[j]).wf(n_grid),
        0 <= m < tables.len(),
        0 <= sel < tables[m].channels().len(),
        is_photon_of(inputs, inputs.meta@[m * DECAY_META_COLS + 1] + sel, xi, photon),
    ensures
        photon.parent == tables[m].channels()[sel].parent,
        exists|i: int|
            #[trigger] is_line(tables[m].channels()[sel].cdf, xi, i) && photon.energy
                == tables[m].channels()[sel].energies[i],
{
    packed_channels_are_the_materials_own(inputs, tables, n_grid, m, sel);
    let t = tables[m];
    let k = inputs.meta@[m * DECAY_META_COLS + 1] + sel;
    let base = inputs.ch_e_meta@[2 * k] as int;
    let count = inputs.ch_e_meta@[2 * k + 1] as int;
    let lines = inputs.ch_intensity_cdf@.subrange(base, base + count);
    let i = choose|i: int|
        #[trigger] is_line(lines, xi, i) && photon.energy == inputs.ch_energies@[base + i];
    assert(t.ch_e_base@[sel] + t.ch_e_count@[sel] <= t.ch_energies@.len());
    assert(lines == t.channels()[sel].cdf);
    assert(inputs.ch_energies@.subrange(base, base + count)[i] == t.channels()[sel].energies[i]);
    assert(is_line(t.channels()[sel].cdf, xi, i));
}

/// Direction of a photon and the seed of its own stream.
#[derive(Clone, Copy, Debug)]
pub struct PhotonBirth {
    pub dx: Real,
    pub dy: Real,
    pub dz: Real,
    pub seed: u32,
}

/// Where and from which source particle a collision takes place.
#[derive(Clone, Copy, Debug)]
pub struct CollisionSite {
    pub cell: u32,
    pub source_idx: u32,
}

/// The record of a prompt photon: at the position and weight of the neutron that
/// collides. Its generation tag is 0.
pub fn prompt_photon_record(
    neutron: Particle,
    site: CollisionSite,
    energy: Real,
    birth: PhotonBirth,
    ptype_photon: u32,
) -> (r: BankRecord<Real>)
    ensures
        r == (BankRecord {
            energy,
            px: neutron.px,
            py: neutron.py,
            pz: neutron.pz,
            dx: birth.dx,
            dy: birth.dy,
            dz: birth.dz,
            weight: neutron.weight,
            ptype: ptype_photon,
            cell: site.cell,
            seed: birth.seed,
            gen: 0,
            source_idx: site.source_idx,
        }),
{
    BankRecord {
        energy,
        px: neutron.px,
        py: neutron.py,
        pz: neutron.pz,
        dx: birth.dx,
        dy: birth.dy,
        dz: birth.dz,
        weight: neutron.weight,
        ptype: ptype_photon,
        cell: site.cell,
        seed: birth.seed,
        gen: 0,
        source_idx: site.source_idx,
    }
}

/// The record of a decay photon: at the position of the neutron that collides,
/// with the id of its parent nuclide in place of a generation tag. `weight` is
/// that of the neutron times the photon yield.
pub fn decay_photon_record(
    neutron: Particle,
    site: CollisionSite,
    photon: DecayPhoton,
    weight: Real,
    birth: PhotonBirth,
    ptype_photon: u32,
) -> (r: BankRecord<Real>)
    ensures
        r == (BankRecord {
            energy: photon.energy,
            px: neutron.px,
            py: neutron.py,
            pz: neutron.pz,
            dx: birth.dx,
            dy: birth.dy,
            dz: birth.dz,
            weight,
            ptype: ptype_photon,
            cell: site.cell,
            seed: birth.seed,
            gen: photon.parent,
            source_idx: site.source_idx,
        }),
{
    BankRecord {
        energy: photon.energy,
        px: neutron.px,
        py: neutron.py,
        pz: neutron.pz,
        dx: birth.dx,
        dy: birth.dy,
        dz: birth.dz,
        weight,
        ptype: ptype_photon,
        cell: site.cell,
        seed: birth.seed,
        gen: photon.parent,
        source_idx: site.source_idx,
    }
}

/// Which photons a launch emits at its collisions.
#[derive(Clone, Copy, Debug, PartialEq, Eq, Structural)]
pub struct EmissionGates {
    /// Prompt photons of coupled transport.
    pub prompt: bool,
    /// Decay photons.
    pub decay: bool,
}

/// Photons that a collision hands to the bank: of those sampled, the real ones
/// whose gate is open, the prompt ones first.
pub open spec fn gated(
    gates: EmissionGates,
    prompt: Seq<BankRecord<Real>>,
    decay: Seq<BankRecord<Real>>,
) -> Seq<BankRecord<Real>> {
    (if gates.prompt {
        emitted(prompt)
    } else {
        Seq::empty()
    }) + if gates.decay {
        emitted(decay)
    } else {
        Seq::empty()
    }
}

/// `after` is the bank once it has taken the photons: stored behind its records as
/// far as there is room, all of them counted, and no later slot is written.
pub open spec fn took(
    before: Bank<Real>,
    after: Bank<Real>,
    photons: Seq<BankRecord<Real>>,
) -> bool {
    &&& after.wf()
    &&& after.capacity == before.capacity
    &&& after.count == before.count + photons.len()
    &&& after.records() == at_most(before.records() + photons, before.capacity as nat)
    &&& after.same_from(before, before.count + photons.len())
    &&& photons.len() == 0 ==> after == before
}

/// Banks the photons of one collision, those whose gate is open. With both gates
/// shut the bank is left as it is.
pub fn bank_collision_photons(
    bank: &mut Bank<Real>,
    gates: EmissionGates,
    prompt: &[BankRecord<Real>],
    decay: &[BankRecord<Real>],
)
    requires
        old(bank).wf(),
        old(bank).count + prompt.len() + decay.len() <= u64::MAX,
    ensures
        took(*old(bank), *final(bank), gated(gates, prompt@, decay@)),
{
    proof {
        lemma_emitted_len(prompt@);
        lemma_emitted_len(decay@);
    }
    let ghost start = *bank;
    let ghost none = Seq::<BankRecord<Real>>::empty();
    let ghost first = if gates.prompt {
        emitted(prompt@)
    } else {
        none
    };
    if gates.prompt {
        bank_photons(bank, prompt);
    } else {
        assert(start.records() + none =~= start.records());
    }
    let ghost middle = *bank;
    assert(middle.records() == at_most(start.records() + first, start.capacity as nat));
    if gates.decay {
        bank_photons(bank, decay);
        proof {
            let second = emitted(decay@);
            assert(start.records() + (first + second) =~= (start.records() + first) + second);
            assert(bank.records() =~= at_most(
                start.records() + (first + second),
                start.capacity as nat,
            ));
        }
    } else {
        assert(first + none =~= first);
    }
}

/// If `open`, then `photons` is what the sampler gives on the stream.
pub open spec fn are_sampled<F: Fn(u64) -> Vec<BankRecord<Real>>>(
    sampler: F,
    open: bool,
    stream: u64,
    photons: Seq<BankRecord<Real>>,
) -> bool {
    open ==> exists|v: Vec<BankRecord<Real>>| #[trigger]
        call_ensures(sampler, (stream,), v) && v@ == photons
}

/// A sampler that an open gate lets run gives no more than `n` photons.
pub open spec fn samples_at_most<F: Fn(u64) -> Vec<BankRecord<Real>>>(
    sampler: F,
    open: bool,
    stream: u64,
    n: nat,
) -> bool {
    open ==> call_requires(sampler, (stream,)) && forall|v: Vec<BankRecord<Real>>| #[trigger]
        call_ensures(sampler, (stream,), v) ==> v@.len() <= n
}

/// Emits the photons of a collision. Each kind is sampled from a stream of its
/// own, forked from the neutron's, which stays as it is; a shut gate samples
/// nothing.
pub fn emit_at_collision<
    P: Fn(u64) -> Vec<BankRecord<Real>>,
    D: Fn(u64) -> Vec<BankRecord<Real>>,
>(bank: &mut Bank<Real>, gates: EmissionGates, state: u64, prompt: &P, decay: &D)
    requires
        old(bank).wf(),
        old(bank).count + MAX_PHOTONS_PER_COLLISION + 1 <= u64::MAX,
        samples_at_most(
            *prompt,
            gates.prompt,
            state ^ PHOTON_STREAM_KEY,
            MAX_PHOTONS_PER_COLLISION as nat,
        ),
        samples_at_most(*decay, gates.decay, state ^ DECAY_STREAM_KEY, 1),
    ensures
        exists|p: Seq<BankRecord<Real>>, d: Seq<BankRecord<Real>>|
            #![trigger gated(gates, p, d)]
            are_sampled(*prompt, gates.prompt, state ^ PHOTON_STREAM_KEY, p) && are_sampled(
                *decay,
                gates.decay,
                state ^ DECAY_STREAM_KEY,
                d,
            ) && took(*old(bank), *final(bank), gated(gates, p, d)),
{
    let from_prompt: Vec<BankRecord<Real>> = if gates.prompt {
        prompt(photon_stream(state))
    } else {
        Vec::new()
    };
    let from_decay: Vec<BankRecord<Real>> = if gates.decay {
        decay(decay_stream(state))
    } else {
        Vec::new()
    };
    bank_collision_photons(bank, gates, from_prompt.as_slice(), from_decay.as_slice());
    assert(took(*old(bank), *bank, gated(gates, from_prompt@, from_decay@)));
}

proof fn lemma_emitted_len(attempts: Seq<BankRecord<Real>>)
    ensures
        emitted(attempts).len() <= attempts.len(),
    decreases attempts.len(),
{
    if attempts.len() > 0 {
        lemma_emitted_len(attempts.drop_last());
    }
}

/// Photons draw from the neutron's state turned by their own key, decay photons by
/// theirs; turned twice by one key it is the neutron's state again.
pub proof fn photon_streams_turn_the_state(state: u64, p: u64, d: u64, back: u64)
    requires
        call_ensures(photon_stream, (state,), p),
        call_ensures(decay_stream, (state,), d),
        call_ensures(photon_stream, (p,), back),
    ensures
        p == state ^ 0x9E37_79B9_7F4A_7C15u64,
        d == state ^ 0xFF51_AFD7_ED55_8CCDu64,
        back == state,
{
    assert((state ^ 0x9E37_79B9_7F4A_7C15u64) ^ 0x9E37_79B9_7F4A_7C15u64 == state) by (bit_vector);
}

/// A collision tries as many photons as were drawn, up to sixteen.
pub proof fn a_collision_tries_up_to_sixteen(n_photons: u32, r: u32)
    requires
        call_ensures(photon_attempts, (n_photons,), r),
    ensures
        r <= 16,
        r <= n_photons,
        r == 16 || r == n_photons,
{
}

/// What is emitted are the attempts with an energy above zero, in their order.
pub proof fn attempts_with_energy_are_emitted(attempts: Seq<BankRecord<Real>>)
    ensures
        emitted(attempts) == attempts.filter(
            |a: BankRecord<Real>| (Real { bits: 0 }).lt(a.energy),
        ),
    decreases attempts.len(),
{
    reveal(Seq::filter);
    if attempts.len() > 0 {
        attempts_with_energy_are_emitted(attempts.drop_last());
    }
}

/// Of prompt and decay photons, each kind is emitted where it is switched on, the
/// prompt ones first.
pub proof fn each_kind_is_emitted_where_switched_on(
    gates: EmissionGates,
    prompt: Seq<BankRecord<Real>>,
    decay: Seq<BankRecord<Real>>,
)
    ensures
        ({
            let above = |a: BankRecord<Real>| (Real { bits: 0 }).lt(a.energy);
            let all = gated(gates, prompt, decay);
            &&& gates.prompt && gates.decay ==> all =~= prompt.filter(above) + decay.filter(above)
            &&& gates.prompt && !gates.decay ==> all =~= prompt.filter(above)
            &&& !gates.prompt && gates.decay ==> all =~= decay.filter(above)
            &&& !gates.prompt && !gates.decay ==> all.len() == 0
        }),
{
    attempts_with_energy_are_emitted(prompt);
    attempts_with_energy_are_emitted(decay);
}

/// A bank takes photons behind what it holds, as far as it has room, and counts them
/// all.
pub proof fn a_bank_takes_photons_in_order(
    before: Bank<Real>,
    after: Bank<Real>,
    photons: Seq<BankRecord<Real>>,
)
    requires
        before.wf(),
        took(before, after, photons),
    ensures
        after.capacity == before.capacity,
        after.count == before.count + photons.len(),
        forall|i: int|
            0 <= i < before.records().len() ==> #[trigger] after.records()[i] == before.records()[i],
        forall|i: int|
            0 <= i < photons.len() && before.count + i < before.capacity ==> after.records()[before.count
                + i] == #[trigger] photons[i],
        after.overflow == if after.count > after.capacity {
            after.count - after.capacity
        } else {
            0
        },
{
}

/// The rows of a material and the lines of a channel are read from their own places.
pub proof fn decay_rows_are_the_materials_own(
    meta: &[u32],
    mat: usize,
    r: DecayRange,
    e_meta: &[u32],
    channel: usize,
    lines: (u32, u32),
)
    requires
        (mat + 1) * 3 <= meta.len(),
        2 * channel + 1 < e_meta.len(),
        call_ensures(decay_range, (meta, mat), r),
        call_ensures(line_range, (e_meta, channel), lines),
    ensures
        r.pp_base == meta@[3 * mat],
        r.ch_base == meta@[3 * mat + 1],
        r.ch_count == meta@[3 * mat + 2],
        lines.0 == e_meta@[2 * channel],
        lines.1 == e_meta@[2 * channel + 1],
{
}

/// A decay photon is emitted where the material produces any and has a channel.
pub proof fn decay_photons_need_production_and_a_channel(production: Real, ch_count: u32, r: bool)
    requires
        call_ensures(emits_decay_photon, (production, ch_count), r),
    ensures
        r <==> (Real { bits: 0 }).lt(production) && ch_count >= 1,
{
}

/// The line of a draw is the first whose share of the intensity reaches it, and the
/// last where none does.
pub proof fn the_draw_picks_the_line(cdf: &[Real], base: usize, count: usize, xi: Real, r: usize)
    requires
        count > 0,
        base + count <= cdf.len(),
        call_ensures(select_line, (cdf, base, count, xi), r),
    ensures
        r < count,
        r + 1 < count ==> xi.le(cdf@[base + r]),
        forall|j: int| base <= j < base + r ==> !xi.le(#[trigger] cdf@[j]),
{
    let g = cdf@.subrange(base as int, base + count);
    assert(is_line(g, xi, r as int));
    assert(g[r as int] == cdf@[base + r]);
    assert forall|j: int| base <= j < base + r implies !xi.le(#[trigger] cdf@[j]) by {
        assert(g[j - base] == cdf@[j]);
    }
}

/// A photon is born where its neutron collided, in the direction and with the seed
/// drawn for it. A prompt one has the neutron's weight and no parent; a decay one
/// has the weight worked out for it, its own energy and its parent nuclide.
pub proof fn photons_are_born_at_the_collision(
    neutron: Particle,
    site: CollisionSite,
    energy: Real,
    photon: DecayPhoton,
    weight: Real,
    birth: PhotonBirth,
    ptype: u32,
    p: BankRecord<Real>,
    d: BankRecord<Real>,
)
    requires
        call_ensures(prompt_photon_record, (neutron, site, energy, birth, ptype), p),
        call_ensures(decay_photon_record, (neutron, site, photon, weight, birth, ptype), d),
    ensures
        p.px == neutron.px && p.py == neutron.py && p.pz == neutron.pz,
        p.dx == birth.dx && p.dy == birth.dy && p.dz == birth.dz && p.seed == birth.seed,
        p.cell == site.cell && p.source_idx == site.source_idx && p.ptype == ptype,
        p.energy == energy && p.weight == neutron.weight && p.gen == 0,
        d.energy == photon.energy && d.weight == weight && d.gen == photon.parent,
        d == (BankRecord { energy: d.energy, weight: d.weight, gen: d.gen, ..p }),
{
}

/// The channel of a draw is the first with a cross section whose running sum is past
/// the cutoff; where none is, the last with a cross section, and the last of all
/// where none has one.
pub proof fn the_draw_picks_the_channel(xs: &[Real], sums: &[Real], cutoff: Real, j: int, r: usize)
    requires
        xs.len() > 0,
        sums.len() == xs.len(),
        call_ensures(select_channel, (xs, sums, cutoff), r),
        0 <= j < xs.len(),
    ensures
        ({
            let zero = Real { bits: 0 };
            &&& r < xs.len()
            &&& zero.lt(xs@[j]) && cutoff.lt(sums@[j]) ==> zero.lt(xs@[r as int]) && cutoff.lt(
                sums@[r as int],
            ) && r <= j
            &&& zero.lt(xs@[j]) ==> zero.lt(xs@[r as int])
            &&& (forall|i: int| 0 <= i < xs.len() ==> !zero.lt(#[trigger] xs@[i])) ==> r == xs.len()
                - 1
            &&& (forall|i: int|
                0 <= i < xs.len() ==> !(zero.lt(#[trigger] xs@[i]) && cutoff.lt(sums@[i])))
                && zero.lt(xs@[j]) ==> j <= r
        }),
{
    lemma_some_first(xs@, sums@, cutoff, xs.len() as int);
    if exists|c: int| first_past_cutoff(xs@, sums@, cutoff, c) {
        assert(first_past_cutoff(xs@, sums@, cutoff, r as int));
    } else {
        assert(!(xs@[j].positive() && cutoff.lt(sums@[j])));
    }
    if forall|i: int|
        0 <= i < xs.len() ==> !((Real { bits: 0 }).lt(#[trigger] xs@[i]) && cutoff.lt(sums@[i])) {
        assert forall|c: int| !first_past_cutoff(xs@, sums@, cutoff, c) by {
            if 0 <= c < xs.len() {
                let x = xs@[c];
            }
        }
    }
}

proof fn lemma_some_first(xs: Seq<Real>, sums: Seq<Real>, cutoff: Real, n: int)
    requires
        0 <= n <= xs.len(),
    ensures
        (exists|i: int| 0 <= i < n && (#[trigger] xs[i]).positive() && cutoff.lt(sums[i]))
            ==> exists|c: int| #[trigger] first_past_cutoff(xs, sums, cutoff, c),
    decreases n,
{
    if n > 0 {
        lemma_some_first(xs, sums, cutoff, n - 1);
        if !(exists|i: int|
            0 <= i < n - 1 && (#[trigger] xs[i]).positive() && cutoff.lt(sums[i])) && xs[n
            - 1].positive() && cutoff.lt(sums[n - 1]) {
            assert(first_past_cutoff(xs, sums, cutoff, n - 1));
        }
    }
}

} // verus!
