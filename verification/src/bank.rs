//! The device particle bank and the lost-particle log.
//!
//! Secondaries that a history does not transport itself are appended to a bank
//! of fixed capacity. A record that finds the bank full is counted as overflow,
//! never dropped unseen.
use crate::ieee::Real;
use crate::layout::{BANK_F64_STRIDE, BANK_GEN_FISSION, BANK_GEN_NXN_SPILL, BANK_U32_STRIDE};
use crate::pend::{PendEntry, RegisterStack, PEND_SLOTS};
use vstd::prelude::*;

verus! {

/// One banked particle. `T` is the type of its real words.
#[derive(Debug)]
pub struct BankRecord<T> {
    pub energy: T,
    pub px: T,
    pub py: T,
    pub pz: T,
    pub dx: T,
    pub dy: T,
    pub dz: T,
    pub weight: T,
    /// Species code.
    pub ptype: u32,
    pub cell: u32,
    /// Seed of the particle's random stream.
    pub seed: u32,
    /// Provenance of a neutron; parent nuclide of a decay photon.
    pub gen: u32,
    /// Source particle it descends from.
    pub source_idx: u32,
}

/// The bank as the device lays it out: real words at stride
/// [`BANK_F64_STRIDE`], integer words at stride [`BANK_U32_STRIDE`] and one
/// source index per slot.
pub struct Bank<T> {
    pub bank_f64: Vec<T>,
    pub bank_u32: Vec<u32>,
    pub source_idx: Vec<u32>,
    /// Reservations made, including those past the capacity.
    pub count: u64,
    /// Reservations past the capacity.
    pub overflow: u64,
    pub capacity: usize,
}

/// The record in slot `s` of a bank's words.
pub open spec fn record_at<T>(f: Seq<T>, u: Seq<u32>, src: Seq<u32>, s: int) -> BankRecord<T> {
    BankRecord {
        energy: f[s * BANK_F64_STRIDE],
        px: f[s * BANK_F64_STRIDE + 1],
        py: f[s * BANK_F64_STRIDE + 2],
        pz: f[s * BANK_F64_STRIDE + 3],
        dx: f[s * BANK_F64_STRIDE + 4],
        dy: f[s * BANK_F64_STRIDE + 5],
        dz: f[s * BANK_F64_STRIDE + 6],
        weight: f[s * BANK_F64_STRIDE + 7],
        ptype: u[s * BANK_U32_STRIDE],
        cell: u[s * BANK_U32_STRIDE + 1],
        seed: u[s * BANK_U32_STRIDE + 2],
        gen: u[s * BANK_U32_STRIDE + 3],
        source_idx: src[s],
    }
}

/// Slots to allocate for a requested capacity: a bank is never empty, since a
/// spilled secondary can occur on any run.
pub fn bank_slots(requested: usize) -> (r: usize)
    ensures
        r == if requested == 0 {
            1
        } else {
            requested as int
        },
{
    if requested == 0 {
        1
    } else {
        requested
    }
}

impl<T: Copy> Bank<T> {
    pub open spec fn wf(self) -> bool {
        &&& self.bank_f64@.len() == self.capacity * BANK_F64_STRIDE
        &&& self.bank_u32@.len() == self.capacity * BANK_U32_STRIDE
        &&& self.source_idx@.len() == self.capacity
        &&& self.overflow == if self.count > self.capacity {
            self.count - self.capacity
        } else {
            0
        }
    }

    /// The records stored so far, in reservation order.
    pub open spec fn records(self) -> Seq<BankRecord<T>> {
        Seq::new(
            if self.count < self.capacity {
                self.count as nat
            } else {
                self.capacity as nat
            },
            |s: int| record_at(self.bank_f64@, self.bank_u32@, self.source_idx@, s),
        )
    }

    /// The words of slot `s` and of every later one are those of `other`.
    pub open spec fn same_from(self, other: Bank<T>, s: int) -> bool {
        &&& self.bank_f64@.len() == other.bank_f64@.len()
        &&& self.bank_u32@.len() == other.bank_u32@.len()
        &&& self.source_idx@.len() == other.source_idx@.len()
        &&& forall|i: int|
            s * BANK_F64_STRIDE <= i < self.bank_f64@.len() ==> #[trigger] self.bank_f64@[i]
                == other.bank_f64@[i]
        &&& forall|i: int|
            s * BANK_U32_STRIDE <= i < self.bank_u32@.len() ==> #[trigger] self.bank_u32@[i]
                == other.bank_u32@[i]
        &&& forall|i: int|
            s <= i < self.source_idx@.len() ==> #[trigger] self.source_idx@[i]
                == other.source_idx@[i]
    }

    /// Both banks hold the same words.
    pub open spec fn same_words(self, other: Bank<T>) -> bool {
        &&& self.bank_f64@ == other.bank_f64@
        &&& self.bank_u32@ == other.bank_u32@
        &&& self.source_idx@ == other.source_idx@
    }

    /// Every word past the stored records is zero.
    pub open spec fn blank_past_records(self, zero: T) -> bool {
        let s = self.records().len() as int;
        &&& forall|i: int|
            s * BANK_F64_STRIDE <= i < self.bank_f64@.len() ==> #[trigger] self.bank_f64@[i] == zero
        &&& forall|i: int|
            s * BANK_U32_STRIDE <= i < self.bank_u32@.len() ==> #[trigger] self.bank_u32@[i] == 0
        &&& forall|i: int|
            s <= i < self.source_idx@.len() ==> #[trigger] self.source_idx@[i] == 0
    }

    /// `after` is this bank with one more reservation, for `rec`: stored behind
    /// the other records while there is room, and nothing else is written.
    pub open spec fn appended(self, after: Bank<T>, rec: BankRecord<T>) -> bool {
        &&& after.wf()
        &&& after.capacity == self.capacity
        &&& after.count == self.count + 1
        &&& after.records() == if self.count < self.capacity {
            self.records().push(rec)
        } else {
            self.records()
        }
        &&& after.same_from(self, self.count + 1)
        &&& self.count >= self.capacity ==> after.same_words(self)
    }

    /// An empty bank, its words filled with zeros.
    pub fn new(requested: usize, zero: T) -> (r: Bank<T>)
        requires
            requested * BANK_F64_STRIDE <= usize::MAX,
        ensures
            r.wf(),
            r.capacity == if requested == 0 {
                1
            } else {
                requested as int
            },
            r.count == 0,
            r.records() == Seq::<BankRecord<T>>::empty(),
            r.blank_past_records(zero),
            forall|i: int| 0 <= i < r.bank_f64@.len() ==> r.bank_f64@[i] == zero,
            forall|i: int| 0 <= i < r.bank_u32@.len() ==> r.bank_u32@[i] == 0,
            forall|i: int| 0 <= i < r.source_idx@.len() ==> r.source_idx@[i] == 0,
    {
        let capacity: usize = bank_slots(requested);
        let r = Bank {
            bank_f64: crate::pack::filled(capacity * BANK_F64_STRIDE, zero),
            bank_u32: crate::pack::filled(capacity * BANK_U32_STRIDE, 0u32),
            source_idx: crate::pack::filled(capacity, 0u32),
            count: 0,
            overflow: 0,
            capacity,
        };
        assert(r.records() =~= Seq::<BankRecord<T>>::empty());
        r
    }

    /// Reserves a slot and writes the record, or counts an overflow when the
    /// bank is full.
    pub fn append(&mut self, rec: BankRecord<T>)
        requires
            old(self).wf(),
            old(self).count < u64::MAX,
        ensures
            old(self).appended(*final(self), rec),
    {
        let slot: u64 = self.count;
        let ghost before = *self;
        self.count = slot + 1;
        if slot < self.capacity as u64 {
            let s: usize = slot as usize;
            assert(s * 8 + 8 <= self.capacity * 8) by (nonlinear_arith)
                requires
                    s < self.capacity,
            ;
            assert(self.bank_f64.len() == self.capacity * BANK_F64_STRIDE);
            let f: usize = s * BANK_F64_STRIDE;
            assert((s + 1) * BANK_F64_STRIDE == f + 8);
            assert((s + 1) * BANK_U32_STRIDE == s * BANK_U32_STRIDE + 4);
            self.bank_f64.set(f, rec.energy);
            self.bank_f64.set(f + 1, rec.px);
            self.bank_f64.set(f + 2, rec.py);
            self.bank_f64.set(f + 3, rec.pz);
            self.bank_f64.set(f + 4, rec.dx);
            self.bank_f64.set(f + 5, rec.dy);
            self.bank_f64.set(f + 6, rec.dz);
            self.bank_f64.set(f + 7, rec.weight);
            let u: usize = s * BANK_U32_STRIDE;
            self.bank_u32.set(u, rec.ptype);
            self.bank_u32.set(u + 1, rec.cell);
            self.bank_u32.set(u + 2, rec.seed);
            self.bank_u32.set(u + 3, rec.gen);
            self.source_idx.set(s, rec.source_idx);
            proof {
                assert(record_at(self.bank_f64@, self.bank_u32@, self.source_idx@, s as int)
                    == rec);
                assert forall|t: int| 0 <= t < s implies record_at(
                    self.bank_f64@,
                    self.bank_u32@,
                    self.source_idx@,
                    t,
                ) == record_at(before.bank_f64@, before.bank_u32@, before.source_idx@, t) by {
                    assert(t * 8 + 8 <= s * 8);
                    assert(t * 4 + 4 <= s * 4);
                }
                assert(self.records() =~= before.records().push(rec));
            }
        } else {
            self.overflow = self.overflow + 1;
            assert(self.records() =~= before.records());
        }
    }
}

/// A bank that has grown from an empty one is zero past its records, so that a
/// reader never takes what a slot was not given for a record. It holds the first
/// records that were handed to it, as many as it has room for.
pub proof fn grown_bank_is_blank_past_its_records<T: Copy>(
    banks: Seq<Bank<T>>,
    recs: Seq<BankRecord<T>>,
    zero: T,
)
    requires
        banks.len() == recs.len() + 1,
        banks[0].wf(),
        banks[0].count == 0,
        banks[0].blank_past_records(zero),
        forall|i: int|
            0 <= i < recs.len() ==> (#[trigger] banks[i]).appended(banks[i + 1], recs[i]),
    ensures
        banks.last().blank_past_records(zero),
        banks.last().wf(),
        banks.last().capacity == banks[0].capacity,
        banks.last().count == recs.len(),
        banks.last().records() == kept(recs, banks[0].capacity as nat),
    decreases recs.len(),
{
    let capacity = banks[0].capacity as nat;
    if recs.len() == 0 {
        assert(banks[0].records() =~= kept(recs, capacity));
    } else {
        let n = recs.len() - 1;
        let earlier = banks.drop_last();
        let rest = recs.drop_last();
        assert forall|i: int| 0 <= i < rest.len() implies (#[trigger] earlier[i]).appended(
            earlier[i + 1],
            rest[i],
        ) by {
            assert(banks[i].appended(banks[i + 1], recs[i]));
        }
        grown_bank_is_blank_past_its_records(earlier, rest, zero);
        let before = banks[n];
        let after = banks[n + 1];
        assert(before == earlier.last());
        assert(before.appended(after, recs[n]));
        lemma_append_keeps_blank(before, after, recs[n], zero);
        if before.count < before.capacity {
            assert(rest.push(recs[n]) =~= recs);
            assert(after.records() =~= kept(recs, capacity));
        } else {
            assert(after.records() =~= kept(recs, capacity));
        }
    }
}

pub(crate) proof fn lemma_append_keeps_blank<T: Copy>(
    before: Bank<T>,
    after: Bank<T>,
    rec: BankRecord<T>,
    zero: T,
)
    requires
        before.wf(),
        before.appended(after, rec),
    ensures
        before.blank_past_records(zero) ==> after.blank_past_records(zero),
{
}

/// Nothing leaves the bank unseen: every reservation is either a stored record
/// or counted as overflow, and there is no overflow exactly while the capacity
/// suffices.
pub proof fn bank_accounts_for_every_reservation<T: Copy>(b: Bank<T>)
    requires
        b.wf(),
    ensures
        b.count == b.records().len() + b.overflow,
        b.overflow == 0 <==> b.count <= b.capacity,
{
}

/// Queues an (n,xn) secondary of a device thread: into its register stack, or
/// into the bank when every slot is taken.
pub fn stack_or_bank<T: Copy>(
    stack: &mut RegisterStack,
    bank: &mut Bank<T>,
    entry: PendEntry,
    rec: BankRecord<T>,
)
    requires
        old(stack).wf(),
        old(bank).wf(),
        old(bank).count < u64::MAX,
    ensures
        final(stack).wf(),
        final(bank).wf(),
        old(stack)@.len() < PEND_SLOTS ==> final(stack)@ == old(stack)@.push(entry) && *final(bank)
            == *old(bank),
        old(stack)@.len() >= PEND_SLOTS ==> final(stack)@ == old(stack)@ && old(bank).appended(
            *final(bank),
            rec,
        ),
{
    match stack.push(entry) {
        None => {},
        Some(_) => {
            bank.append(rec);
        },
    }
}

/// The record of a queue entry that is banked in a cell: the particle as it was
/// queued, with the seed of its own stream.
pub open spec fn record_of_entry(
    entry: PendEntry,
    cell: u32,
    source_idx: u32,
    ptype_neutron: u32,
    gen: u32,
) -> BankRecord<Real> {
    BankRecord {
        energy: entry.particle.energy,
        px: entry.particle.px,
        py: entry.particle.py,
        pz: entry.particle.pz,
        dx: entry.particle.dx,
        dy: entry.particle.dy,
        dz: entry.particle.dz,
        weight: entry.particle.weight,
        ptype: ptype_neutron,
        cell,
        seed: entry.seed,
        gen,
        source_idx,
    }
}

fn neutron_record(
    entry: PendEntry,
    cell: u32,
    source_idx: u32,
    ptype_neutron: u32,
    gen: u32,
) -> (r: BankRecord<Real>)
    ensures
        r == record_of_entry(entry, cell, source_idx, ptype_neutron, gen),
{
    let p = entry.particle;
    BankRecord {
        energy: p.energy,
        px: p.px,
        py: p.py,
        pz: p.pz,
        dx: p.dx,
        dy: p.dy,
        dz: p.dz,
        weight: p.weight,
        ptype: ptype_neutron,
        cell,
        seed: entry.seed,
        gen,
        source_idx,
    }
}

/// The record of an (n,xn) secondary that found the register stack full.
pub fn spilled_record(entry: PendEntry, cell: u32, source_idx: u32, ptype_neutron: u32) -> (r:
    BankRecord<Real>)
    ensures
        r == record_of_entry(entry, cell, source_idx, ptype_neutron, BANK_GEN_NXN_SPILL),
{
    neutron_record(entry, cell, source_idx, ptype_neutron, BANK_GEN_NXN_SPILL)
}

/// The record of a fission progeny, which a device thread always banks.
pub fn progeny_record(entry: PendEntry, cell: u32, source_idx: u32, ptype_neutron: u32) -> (r:
    BankRecord<Real>)
    ensures
        r == record_of_entry(entry, cell, source_idx, ptype_neutron, BANK_GEN_FISSION),
{
    neutron_record(entry, cell, source_idx, ptype_neutron, BANK_GEN_FISSION)
}

/// Queues an (n,xn) secondary that a device thread emits in a cell: into its
/// register stack, or as a spilled record into the bank.
pub fn queue_or_spill(
    stack: &mut RegisterStack,
    bank: &mut Bank<Real>,
    entry: PendEntry,
    cell: u32,
    source_idx: u32,
    ptype_neutron: u32,
)
    requires
        old(stack).wf(),
        old(bank).wf(),
        old(bank).count < u64::MAX,
    ensures
        final(stack).wf(),
        final(bank).wf(),
        old(stack)@.len() < PEND_SLOTS ==> final(stack)@ == old(stack)@.push(entry) && *final(bank)
            == *old(bank),
        old(stack)@.len() >= PEND_SLOTS ==> final(stack)@ == old(stack)@ && old(bank).appended(
            *final(bank),
            record_of_entry(entry, cell, source_idx, ptype_neutron, BANK_GEN_NXN_SPILL),
        ),
{
    let rec = spilled_record(entry, cell, source_idx, ptype_neutron);
    stack_or_bank(stack, bank, entry, rec);
}

/// Banks a fission progeny that a device thread emits in a cell.
pub fn bank_progeny(
    bank: &mut Bank<Real>,
    entry: PendEntry,
    cell: u32,
    source_idx: u32,
    ptype_neutron: u32,
)
    requires
        old(bank).wf(),
        old(bank).count < u64::MAX,
    ensures
        old(bank).appended(
            *final(bank),
            record_of_entry(entry, cell, source_idx, ptype_neutron, BANK_GEN_FISSION),
        ),
{
    bank.append(progeny_record(entry, cell, source_idx, ptype_neutron));
}

/// Whether slot `s` holds a spilled (n,xn) neutron. The generation tag alone
/// does not tell: a decay photon carries its parent nuclide there.
pub open spec fn is_nxn_spill(bank_u32: Seq<u32>, ptype_neutron: u32, s: int) -> bool {
    bank_u32[s * BANK_U32_STRIDE] == ptype_neutron && bank_u32[s * BANK_U32_STRIDE + 3]
        == BANK_GEN_NXN_SPILL
}

pub open spec fn nxn_spills(bank_u32: Seq<u32>, ptype_neutron: u32, n: nat) -> nat
    decreases n,
{
    if n == 0 {
        0
    } else {
        nxn_spills(bank_u32, ptype_neutron, (n - 1) as nat) + if is_nxn_spill(
            bank_u32,
            ptype_neutron,
            n - 1,
        ) {
            1nat
        } else {
            0nat
        }
    }
}

/// Spilled (n,xn) neutrons among the first `count` records that were read back.
pub fn count_nxn_spills(bank_u32: &[u32], count: u64, ptype_neutron: u32) -> (r: u64)
    ensures
        r == nxn_spills(
            bank_u32@,
            ptype_neutron,
            if count < bank_u32.len() / BANK_U32_STRIDE {
                count as nat
            } else {
                (bank_u32.len() / BANK_U32_STRIDE) as nat
            },
        ),
{
    let held: usize = bank_u32.len() / BANK_U32_STRIDE;
    let n: usize = if count < held as u64 {
        count as usize
    } else {
        held
    };
    let mut r: u64 = 0;
    let mut s: usize = 0;
    while s < n
        invariant
            s <= n <= held,
            held == bank_u32.len() / BANK_U32_STRIDE,
            r <= s,
            r == nxn_spills(bank_u32@, ptype_neutron, s as nat),
        decreases n - s,
    {
        let u: usize = s * BANK_U32_STRIDE;
        if bank_u32[u] == ptype_neutron && bank_u32[u + 3] == BANK_GEN_NXN_SPILL {
            r = r + 1;
        }
        s = s + 1;
    }
    r
}

/// A banked photon is never counted as a spilled neutron, whatever parent
/// nuclide it carries.
pub proof fn photons_are_not_spills(bank_u32: Seq<u32>, ptype_neutron: u32, s: int)
    requires
        bank_u32[s * BANK_U32_STRIDE] != ptype_neutron,
    ensures
        !is_nxn_spill(bank_u32, ptype_neutron, s),
{
}

/// Walks that ended in no cell: how many, with the first few of their records.
pub struct LostParticleResult<R> {
    pub count: u64,
    pub records: Vec<R>,
}

/// The first `capacity` of `all`.
pub open spec fn kept<R>(all: Seq<R>, capacity: nat) -> Seq<R> {
    if all.len() <= capacity {
        all
    } else {
        all.subrange(0, capacity as int)
    }
}

impl<R: Copy> LostParticleResult<R> {
    /// This log describes exactly the losses `all`.
    pub open spec fn describes(self, all: Seq<R>, capacity: nat) -> bool {
        self.count == all.len() && self.records@ == kept(all, capacity)
    }

    pub fn new() -> (r: LostParticleResult<R>)
        ensures
            r.count == 0,
            r.records@ == Seq::<R>::empty(),
    {
        LostParticleResult { count: 0, records: Vec::new() }
    }

    /// Counts a loss and keeps its record while there is room.
    pub fn add_loss(&mut self, rec: R, capacity: usize)
        requires
            old(self).count < u64::MAX,
        ensures
            final(self).count == old(self).count + 1,
            final(self).records@ == if old(self).records@.len() < capacity {
                old(self).records@.push(rec)
            } else {
                old(self).records@
            },
    {
        self.count = self.count + 1;
        if self.records.len() < capacity {
            self.records.push(rec);
        }
    }
}

/// A log that describes the losses so far describes them with one more after
/// that loss is added: it counts all of them and keeps the first records.
pub proof fn loss_log_keeps_the_first_records<R: Copy>(
    before: LostParticleResult<R>,
    after: LostParticleResult<R>,
    all: Seq<R>,
    rec: R,
    capacity: nat,
)
    requires
        before.describes(all, capacity),
        after.count == before.count + 1,
        after.records@ == if before.records@.len() < capacity {
            before.records@.push(rec)
        } else {
            before.records@
        },
    ensures
        after.describes(all.push(rec), capacity),
{
    assert(after.records@ =~= kept(all.push(rec), capacity));
}

/// A record that finds room is written behind those before it: its eight values in
/// eight words in a row, its four numbers in four, its source beside them. All
/// words before and behind stay as they were.
pub proof fn an_appended_record_stands_in_its_slot<T: Copy>(
    before: Bank<T>,
    after: Bank<T>,
    rec: BankRecord<T>,
)
    requires
        before.wf(),
        before.appended(after, rec),
        before.count < before.capacity,
    ensures
        after.count == before.count + 1,
        ({
            let s = before.count as int;
            &&& after.bank_f64@[8 * s] == rec.energy
            &&& after.bank_f64@[8 * s + 1] == rec.px
            &&& after.bank_f64@[8 * s + 2] == rec.py
            &&& after.bank_f64@[8 * s + 3] == rec.pz
            &&& after.bank_f64@[8 * s + 4] == rec.dx
            &&& after.bank_f64@[8 * s + 5] == rec.dy
            &&& after.bank_f64@[8 * s + 6] == rec.dz
            &&& after.bank_f64@[8 * s + 7] == rec.weight
            &&& after.bank_u32@[4 * s] == rec.ptype
            &&& after.bank_u32@[4 * s + 1] == rec.cell
            &&& after.bank_u32@[4 * s + 2] == rec.seed
            &&& after.bank_u32@[4 * s + 3] == rec.gen
            &&& after.source_idx@[s] == rec.source_idx
        }),
        forall|i: int|
            0 <= i < before.bank_f64@.len() && !(8 * before.count <= i < 8 * before.count + 8)
                ==> #[trigger] after.bank_f64@[i] == before.bank_f64@[i],
        forall|i: int|
            0 <= i < before.bank_u32@.len() && !(4 * before.count <= i < 4 * before.count + 4)
                ==> #[trigger] after.bank_u32@[i] == before.bank_u32@[i],
        forall|i: int|
            0 <= i < before.source_idx@.len() && i != before.count
                ==> #[trigger] after.source_idx@[i] == before.source_idx@[i],
{
    let s = before.count as int;
    assert(after.records()[s] == rec);
    assert forall|i: int|
        0 <= i < before.bank_f64@.len() && !(8 * before.count <= i < 8 * before.count
            + 8) implies #[trigger] after.bank_f64@[i] == before.bank_f64@[i] by {
        if i < 8 * s {
            lemma_earlier_records(before, after, rec, i / 8);
        }
    }
    assert forall|i: int|
        0 <= i < before.bank_u32@.len() && !(4 * before.count <= i < 4 * before.count
            + 4) implies #[trigger] after.bank_u32@[i] == before.bank_u32@[i] by {
        if i < 4 * s {
            lemma_earlier_records(before, after, rec, i / 4);
        }
    }
    assert forall|i: int| 0 <= i < before.source_idx@.len() && i != before.count implies #[trigger]
    after.source_idx@[i] == before.source_idx@[i] by {
        if i < s {
            lemma_earlier_records(before, after, rec, i);
        }
    }
}

proof fn lemma_earlier_records<T: Copy>(
    before: Bank<T>,
    after: Bank<T>,
    rec: BankRecord<T>,
    k: int,
)
    requires
        before.wf(),
        before.appended(after, rec),
        before.count < before.capacity,
        0 <= k < before.count,
    ensures
        forall|j: int| 0 <= j < 8 ==> #[trigger] after.bank_f64@[8 * k + j] == before.bank_f64@[8 * k + j],
        forall|i: int| 8 * k <= i < 8 * k + 8 ==> #[trigger] after.bank_f64@[i] == before.bank_f64@[i],
        forall|i: int| 4 * k <= i < 4 * k + 4 ==> #[trigger] after.bank_u32@[i] == before.bank_u32@[i],
        after.source_idx@[k] == before.source_idx@[k],
{
    let a = after.records()[k];
    let b = before.records()[k];
    assert(a == b);
    assert forall|i: int| 8 * k <= i < 8 * k + 8 implies #[trigger] after.bank_f64@[i]
        == before.bank_f64@[i] by {
        let j = i - 8 * k;
        assert(j == 0 || j == 1 || j == 2 || j == 3 || j == 4 || j == 5 || j == 6 || j == 7);
    }
}

/// A record that finds no room changes no word and is counted all the same.
pub proof fn a_full_bank_counts_and_drops<T: Copy>(
    before: Bank<T>,
    after: Bank<T>,
    rec: BankRecord<T>,
)
    requires
        before.wf(),
        before.appended(after, rec),
        before.count >= before.capacity,
    ensures
        after.bank_f64@ == before.bank_f64@,
        after.bank_u32@ == before.bank_u32@,
        after.source_idx@ == before.source_idx@,
        after.count == before.count + 1,
        after.overflow == before.overflow + 1,
{
}

/// A banked neutron keeps all eight of its values and its seed. One that found no
/// register is marked with a two, a fission neutron with a one.
pub proof fn a_banked_neutron_is_the_entry(
    entry: PendEntry,
    cell: u32,
    source_idx: u32,
    ptype_neutron: u32,
    spill: BankRecord<Real>,
    progeny: BankRecord<Real>,
)
    requires
        call_ensures(spilled_record, (entry, cell, source_idx, ptype_neutron), spill),
        call_ensures(progeny_record, (entry, cell, source_idx, ptype_neutron), progeny),
    ensures
        spill.energy == entry.particle.energy,
        spill.px == entry.particle.px && spill.py == entry.particle.py && spill.pz
            == entry.particle.pz,
        spill.dx == entry.particle.dx && spill.dy == entry.particle.dy && spill.dz
            == entry.particle.dz,
        spill.weight == entry.particle.weight,
        spill.ptype == ptype_neutron && spill.cell == cell && spill.seed == entry.seed,
        spill.gen == 2,
        spill.source_idx == source_idx,
        progeny == (BankRecord { gen: 1, ..spill }),
{
}

/// Of one more record, the count goes up exactly where it is a neutron marked with a
/// two.
pub proof fn spills_are_counted_one_by_one(bank_u32: Seq<u32>, ptype_neutron: u32, n: nat)
    ensures
        nxn_spills(bank_u32, ptype_neutron, 0) == 0,
        bank_u32[4 * n as int] == ptype_neutron && bank_u32[4 * n as int + 3] == 2 ==> nxn_spills(
            bank_u32,
            ptype_neutron,
            n + 1,
        ) == nxn_spills(bank_u32, ptype_neutron, n) + 1,
        !(bank_u32[4 * n as int] == ptype_neutron && bank_u32[4 * n as int + 3] == 2) ==> nxn_spills(
            bank_u32,
            ptype_neutron,
            n + 1,
        ) == nxn_spills(bank_u32, ptype_neutron, n),
{
}

/// Spills are counted among the records that the bank holds, as far as they were
/// reserved.
pub proof fn spills_are_counted_among_the_records(
    bank_u32: &[u32],
    count: u64,
    ptype_neutron: u32,
    r: u64,
)
    requires
        call_ensures(count_nxn_spills, (bank_u32, count, ptype_neutron), r),
    ensures
        4 * count <= bank_u32@.len() ==> r == nxn_spills(bank_u32@, ptype_neutron, count as nat),
        4 * count > bank_u32@.len() ==> r == nxn_spills(
            bank_u32@,
            ptype_neutron,
            bank_u32@.len() / 4,
        ),
{
    if 4 * count > bank_u32@.len() && count < bank_u32@.len() / 4 {
        assert(false);
    }
}

/// What is kept are the first, up to the limit.
pub proof fn the_first_are_kept<R>(all: Seq<R>, capacity: nat)
    ensures
        all.len() <= capacity ==> kept(all, capacity).len() == all.len(),
        all.len() > capacity ==> kept(all, capacity).len() == capacity,
        forall|i: int| 0 <= i < kept(all, capacity).len() ==> #[trigger] kept(all, capacity)[i] == all[i],
{
}

/// A bank is asked for at least one slot.
pub proof fn a_bank_has_a_slot(requested: usize, r: usize)
    requires
        call_ensures(bank_slots, (requested,), r),
    ensures
        requested > 0 ==> r == requested,
        requested == 0 ==> r == 1,
{
}

} // verus!
