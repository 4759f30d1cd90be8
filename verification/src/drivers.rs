//! Collecting the outcomes of a run's histories.
//!
//! A run logs its histories one by one. A parallel run cuts the particles into
//! chunks, logs each chunk on its own and puts the logs back together in
//! particle order; its result is that of the serial run.
use crate::bank::{kept, LostParticleResult};
use crate::history::{LostParticleRecord, OutcomeState, ParticleOutcome};
use crate::ieee::Real;
use crate::pack::{append, copied, filled, joined, lemma_joined_take};
use crate::photon::PhotonBankResult;
use crate::result::MultiCellResult;
use crate::words::{
    chunks_merge_to_the_serial_tally, deposited_all, in_range, merge, merged, Deposit,
};
use vstd::prelude::*;

verus! {

/// Particles per chunk of a parallel run.
pub const CHUNK: usize = 4096;

/// Histories that one log holds at most.
pub const MAX_HISTORIES: u64 = 0x1_0000_0000;

pub open spec fn alive_of(outs: Seq<OutcomeState>) -> Seq<u32> {
    outs.map_values(|o: OutcomeState| o.alive)
}

pub open spec fn steps_of(outs: Seq<OutcomeState>) -> Seq<u32> {
    outs.map_values(|o: OutcomeState| o.n_steps)
}

pub open spec fn energies_of(outs: Seq<OutcomeState>) -> Seq<Real> {
    outs.map_values(|o: OutcomeState| o.final_energy)
}

/// Records of every walk that was lost, those of a queued secondary among them:
/// history after history, each in the order in which it lost them.
pub open spec fn lost_of(outs: Seq<OutcomeState>) -> Seq<LostParticleRecord>
    decreases outs.len(),
{
    if outs.len() == 0 {
        Seq::empty()
    } else {
        lost_of(outs.drop_last()) + outs.last().lost
    }
}

/// Secondaries that found the pending stack full.
pub open spec fn spilled_of(outs: Seq<OutcomeState>) -> nat
    decreases outs.len(),
{
    if outs.len() == 0 {
        0
    } else {
        spilled_of(outs.drop_last()) + outs.last().n_spilled as nat
    }
}

/// Deepest pending stack.
pub open spec fn deepest(outs: Seq<OutcomeState>) -> nat
    decreases outs.len(),
{
    if outs.len() == 0 {
        0
    } else {
        let before = deepest(outs.drop_last());
        if outs.last().max_pend_depth > before {
            outs.last().max_pend_depth as nat
        } else {
            before
        }
    }
}

/// Histories whose pending stack peaked at depth `d`.
pub open spec fn at_depth(outs: Seq<OutcomeState>, d: int) -> nat
    decreases outs.len(),
{
    if outs.len() == 0 {
        0
    } else {
        at_depth(outs.drop_last(), d) + if outs.last().max_pend_depth == d {
            1nat
        } else {
            0nat
        }
    }
}

/// Entries of the histogram of peak depths: up to the deepest.
pub open spec fn depths(outs: Seq<OutcomeState>) -> nat {
    if outs.len() == 0 {
        0
    } else {
        deepest(outs) + 1
    }
}

/// Outcomes of histories, in the form in which a run reports them.
pub struct RunLog {
    pub alive: Vec<u32>,
    pub n_steps: Vec<u32>,
    pub final_energies: Vec<Real>,
    pub lost: Vec<LostParticleRecord>,
    pub n_spilled: u64,
    pub max_pend_depth: u32,
    pub pend_depth_hist: Vec<u64>,
    /// The outcomes themselves.
    pub outcomes: Ghost<Seq<OutcomeState>>,
}

impl View for RunLog {
    type V = Seq<OutcomeState>;

    open spec fn view(&self) -> Seq<OutcomeState> {
        self.outcomes@
    }
}

proof fn lemma_log_bounds(outs: Seq<OutcomeState>)
    ensures
        spilled_of(outs) <= outs.len() * 0xffff_ffff,
        deepest(outs) <= u32::MAX,
        forall|d: int| #[trigger] at_depth(outs, d) <= outs.len(),
        forall|d: int| d > deepest(outs) ==> #[trigger] at_depth(outs, d) == 0,
    decreases outs.len(),
{
    if outs.len() > 0 {
        lemma_log_bounds(outs.drop_last());
        assert forall|d: int| #[trigger] at_depth(outs, d) <= outs.len() by {
            assert(at_depth(outs.drop_last(), d) <= outs.drop_last().len());
        }
        assert forall|d: int| d > deepest(outs) implies #[trigger] at_depth(outs, d) == 0 by {
            assert(at_depth(outs.drop_last(), d) == 0);
        }
    }
}

pub proof fn lemma_log_append(a: Seq<OutcomeState>, b: Seq<OutcomeState>)
    ensures
        lost_of(a + b) == lost_of(a) + lost_of(b),
        spilled_of(a + b) == spilled_of(a) + spilled_of(b),
        deepest(a + b) == if deepest(b) > deepest(a) {
            deepest(b)
        } else {
            deepest(a)
        },
        forall|d: int| #[trigger] at_depth(a + b, d) == at_depth(a, d) + at_depth(b, d),
    decreases b.len(),
{
    if b.len() == 0 {
        assert(a + b =~= a);
        assert(lost_of(a) + lost_of(b) =~= lost_of(a));
    } else {
        let rest = b.drop_last();
        lemma_log_append(a, rest);
        assert((a + b).drop_last() =~= a + rest);
        assert(lost_of(a) + (lost_of(rest) + b.last().lost) =~= (lost_of(a) + lost_of(rest))
            + b.last().lost);
        assert forall|d: int| #[trigger] at_depth(a + b, d) == at_depth(a, d) + at_depth(b, d) by {
            assert(at_depth(a + rest, d) == at_depth(a, d) + at_depth(rest, d));
        }
    }
}

impl RunLog {
    /// The log reports its outcomes.
    pub open spec fn wf(self) -> bool {
        let outs = self@;
        &&& self.alive@ == alive_of(outs)
        &&& self.n_steps@ == steps_of(outs)
        &&& self.final_energies@ == energies_of(outs)
        &&& self.lost@ == lost_of(outs)
        &&& self.n_spilled == spilled_of(outs)
        &&& self.max_pend_depth == deepest(outs)
        &&& self.pend_depth_hist@.len() == depths(outs)
        &&& forall|d: int|
            0 <= d < depths(outs) ==> #[trigger] self.pend_depth_hist@[d] == at_depth(outs, d)
    }

    pub fn new() -> (r: RunLog)
        ensures
            r.wf(),
            r@ == Seq::<OutcomeState>::empty(),
    {
        let r = RunLog {
            alive: Vec::new(),
            n_steps: Vec::new(),
            final_energies: Vec::new(),
            lost: Vec::new(),
            n_spilled: 0,
            max_pend_depth: 0,
            pend_depth_hist: Vec::new(),
            outcomes: Ghost(Seq::empty()),
        };
        assert(r.alive@ =~= alive_of(r@));
        assert(r.n_steps@ =~= steps_of(r@));
        assert(r.final_energies@ =~= energies_of(r@));
        r
    }

    /// Logs one history.
    pub fn record(&mut self, outcome: ParticleOutcome)
        requires
            old(self).wf(),
            old(self)@.len() < MAX_HISTORIES,
            outcome.max_pend_depth < usize::MAX,
        ensures
            final(self).wf(),
            final(self)@ == old(self)@.push(outcome@),
    {
        let ghost before = self@;
        let ghost now = before.push(outcome@);
        proof {
            lemma_log_bounds(before);
            lemma_log_bounds(now);
            assert(now.drop_last() =~= before);
        }
        self.alive.push(outcome.alive);
        self.n_steps.push(outcome.n_steps);
        self.final_energies.push(outcome.final_energy);
        append(&mut self.lost, outcome.lost.as_slice());
        self.n_spilled = self.n_spilled + outcome.n_spilled as u64;
        if outcome.max_pend_depth > self.max_pend_depth {
            self.max_pend_depth = outcome.max_pend_depth;
        }
        let d: usize = outcome.max_pend_depth as usize;
        let ghost hist0 = self.pend_depth_hist@;
        if self.pend_depth_hist.len() <= d {
            let missing: usize = d + 1 - self.pend_depth_hist.len();
            append(&mut self.pend_depth_hist, filled(missing, 0u64).as_slice());
        }
        let ghost hist1 = self.pend_depth_hist@;
        assert(hist1.len() == depths(now));
        assert forall|k: int| 0 <= k < depths(now) implies #[trigger] hist1[k] == at_depth(
            before,
            k,
        ) by {
            if k < hist0.len() {
                assert(hist1[k] == hist0[k]);
                assert(hist0[k] == at_depth(before, k));
            } else if before.len() > 0 {
                assert(at_depth(before, k) == 0);
            }
        }
        assert(hist1[d as int] == at_depth(before, d as int));
        assert(at_depth(before, d as int) <= before.len());
        let n: u64 = self.pend_depth_hist[d];
        self.pend_depth_hist.set(d, n + 1);
        self.outcomes = Ghost(now);
        proof {
            assert(self.alive@ =~= alive_of(now));
            assert(self.n_steps@ =~= steps_of(now));
            assert(self.final_energies@ =~= energies_of(now));
            assert forall|k: int| 0 <= k < depths(now) implies #[trigger] self.pend_depth_hist@[k]
                == at_depth(now, k) by {
                assert(hist1[k] == at_depth(before, k));
            }
        }
    }

    /// Logs the histories of another log behind those of this one.
    pub fn extend(&mut self, other: &RunLog)
        requires
            old(self).wf(),
            other.wf(),
            old(self)@.len() + other@.len() <= MAX_HISTORIES,
        ensures
            final(self).wf(),
            final(self)@ == old(self)@ + other@,
    {
        let ghost a = self@;
        let ghost b = other@;
        proof {
            lemma_log_append(a, b);
            lemma_log_bounds(a);
            lemma_log_bounds(b);
            lemma_log_bounds(a + b);
        }
        append(&mut self.alive, other.alive.as_slice());
        append(&mut self.n_steps, other.n_steps.as_slice());
        append(&mut self.final_energies, other.final_energies.as_slice());
        append(&mut self.lost, other.lost.as_slice());
        self.n_spilled = self.n_spilled + other.n_spilled;
        if other.max_pend_depth > self.max_pend_depth {
            self.max_pend_depth = other.max_pend_depth;
        }
        let ghost hist0 = self.pend_depth_hist@;
        if self.pend_depth_hist.len() < other.pend_depth_hist.len() {
            let missing: usize = other.pend_depth_hist.len() - self.pend_depth_hist.len();
            append(&mut self.pend_depth_hist, filled(missing, 0u64).as_slice());
        }
        let ghost hist1 = self.pend_depth_hist@;
        proof {
            if b.len() == 0 {
                assert(a + b =~= a);
            }
            assert(hist1.len() == depths(a + b));
            assert forall|k: int| 0 <= k < hist1.len() implies #[trigger] hist1[k] == at_depth(
                a,
                k,
            ) by {
                if k < hist0.len() {
                    assert(hist1[k] == hist0[k]);
                    assert(hist0[k] == at_depth(a, k));
                } else if a.len() > 0 {
                    assert(at_depth(a, k) == 0);
                }
            }
        }
        let mut d: usize = 0;
        while d < other.pend_depth_hist.len()
            invariant
                d <= other.pend_depth_hist@.len() <= self.pend_depth_hist@.len(),
                other.wf(),
                b == other@,
                a.len() + b.len() <= MAX_HISTORIES,
                self.pend_depth_hist@.len() == depths(a + b),
                forall|k: int| #[trigger] at_depth(a, k) <= a.len(),
                forall|k: int| #[trigger] at_depth(b, k) <= b.len(),
                forall|k: int| #[trigger] at_depth(a + b, k) == at_depth(a, k) + at_depth(b, k),
                forall|k: int|
                    0 <= k < d ==> #[trigger] self.pend_depth_hist@[k] == at_depth(a + b, k),
                forall|k: int|
                    d <= k < self.pend_depth_hist@.len() ==> #[trigger] self.pend_depth_hist@[k]
                        == at_depth(a, k),
                self.alive@ == alive_of(a) + alive_of(b),
                self.n_steps@ == steps_of(a) + steps_of(b),
                self.final_energies@ == energies_of(a) + energies_of(b),
                self.lost@ == lost_of(a) + lost_of(b),
                self.n_spilled == spilled_of(a) + spilled_of(b),
                self.max_pend_depth == deepest(a + b),
            decreases other.pend_depth_hist@.len() - d,
        {
            assert(other.pend_depth_hist@[d as int] == at_depth(b, d as int));
            assert(at_depth(a + b, d as int) == at_depth(a, d as int) + at_depth(b, d as int));
            assert(at_depth(a, d as int) <= a.len());
            assert(at_depth(b, d as int) <= b.len());
            let n: u64 = self.pend_depth_hist[d] + other.pend_depth_hist[d];
            self.pend_depth_hist.set(d, n);
            d = d + 1;
        }
        self.outcomes = Ghost(a + b);
        proof {
            assert(self.alive@ =~= alive_of(a + b));
            assert(self.n_steps@ =~= steps_of(a + b));
            assert(self.final_energies@ =~= energies_of(a + b));
            assert forall|k: int| 0 <= k < depths(a + b) implies #[trigger] self.pend_depth_hist@[k]
                == at_depth(a + b, k) by {
                if k >= d {
                    if b.len() > 0 {
                        assert(at_depth(b, k) == 0);
                    }
                    assert(at_depth(a + b, k) == at_depth(a, k) + at_depth(b, k));
                }
            }
        }
    }
}

/// Chunks that `n` particles are cut into.
pub open spec fn n_chunks(n: int) -> int {
    (n + CHUNK - 1) / CHUNK as int
}

/// First particle behind the chunk that starts at `start`.
pub open spec fn end_of_chunk(start: int, n: int) -> int {
    if start + CHUNK < n {
        start + CHUNK
    } else {
        n
    }
}

/// First particle of each chunk.
pub fn chunk_starts(n: usize) -> (r: Vec<usize>)
    ensures
        r@ == Seq::new(n_chunks(n as int) as nat, |k: int| (k * CHUNK) as usize),
{
    let mut r: Vec<usize> = Vec::new();
    let mut left: usize = n;
    assert(CHUNK == 4096);
    while left > 0
        invariant
            CHUNK == 4096,
            left <= n,
            left > 0 ==> n - left == r@.len() * CHUNK,
            left == 0 ==> r@.len() == n_chunks(n as int),
            forall|k: int| 0 <= k < r@.len() ==> #[trigger] r@[k] == k * CHUNK,
        decreases left,
    {
        r.push(n - left);
        left = if left > CHUNK {
            left - CHUNK
        } else {
            0
        };
    }
    assert(r@ =~= Seq::new(n_chunks(n as int) as nat, |k: int| (k * CHUNK) as usize)) by {
        assert forall|k: int| 0 <= k < r@.len() implies r@[k] == (k * CHUNK) as usize by {
            assert(r@[k] == k * CHUNK);
        }
    }
    r
}

/// First particle behind a chunk.
pub fn chunk_end(start: usize, n: usize) -> (r: usize)
    requires
        start <= n,
    ensures
        r == end_of_chunk(start as int, n as int),
{
    if n - start > CHUNK {
        start + CHUNK
    } else {
        n
    }
}

/// Every particle is in exactly one chunk.
pub proof fn chunks_partition_the_particles(n: int, i: int)
    requires
        0 <= i < n,
    ensures
        exists|k: int|
            0 <= k < n_chunks(n) && #[trigger] (k * CHUNK) <= i < end_of_chunk(k * CHUNK, n),
        forall|k: int, j: int|
            0 <= k < n_chunks(n) && 0 <= j < n_chunks(n) && #[trigger] (k * CHUNK) <= i
                < end_of_chunk(k * CHUNK, n) && #[trigger] (j * CHUNK) <= i < end_of_chunk(
                j * CHUNK,
                n,
            ) ==> k == j,
{
    let k = i / 4096;
    assert(CHUNK == 4096);
    assert(k * CHUNK == k * 4096);
    assert(k * CHUNK <= i < end_of_chunk(k * CHUNK, n));
    assert(0 <= k < n_chunks(n));
    assert forall|a: int, b: int|
        0 <= a < n_chunks(n) && 0 <= b < n_chunks(n) && #[trigger] (a * CHUNK) <= i < end_of_chunk(
            a * CHUNK,
            n,
        ) && #[trigger] (b * CHUNK) <= i < end_of_chunk(b * CHUNK, n) implies a == b by {
        assert(a * CHUNK == a * 4096 && b * CHUNK == b * 4096);
    }
}

/// Result of one chunk of a parallel run.
pub struct ChunkResult {
    pub chunk_start: usize,
    pub log: RunLog,
    pub tally_acc: Vec<u64>,
}

pub open spec fn starts_of(chunks: Seq<ChunkResult>) -> Seq<usize> {
    chunks.map_values(|c: ChunkResult| c.chunk_start)
}

pub open spec fn logs_of(chunks: Seq<ChunkResult>) -> Seq<Seq<OutcomeState>> {
    chunks.map_values(|c: ChunkResult| c.log@)
}

pub open spec fn tallies_of(chunks: Seq<ChunkResult>) -> Seq<Seq<u64>> {
    chunks.map_values(|c: ChunkResult| c.tally_acc@)
}

/// Item `a` comes before item `b`: it starts earlier, or stands earlier where
/// both start at the same place.
pub open spec fn comes_before(starts: Seq<usize>, a: int, b: int) -> bool {
    starts[a] < starts[b] || (starts[a] == starts[b] && a < b)
}

/// `order` lists the items by where they start.
pub open spec fn is_order(starts: Seq<usize>, order: Seq<usize>) -> bool {
    &&& order.len() == starts.len()
    &&& forall|i: int| 0 <= i < order.len() ==> #[trigger] order[i] < starts.len()
    &&& forall|i: int, j: int|
        0 <= i < j < order.len() ==> comes_before(
            starts,
            #[trigger] order[i] as int,
            #[trigger] order[j] as int,
        )
}

/// The items in the given order.
pub open spec fn in_order<A>(items: Seq<A>, order: Seq<usize>) -> Seq<A> {
    order.map_values(|i: usize| items[i as int])
}

/// Accumulators merged one after the other.
pub open spec fn merged_all(acc: Seq<u64>, tallies: Seq<Seq<u64>>) -> Seq<u64>
    decreases tallies.len(),
{
    if tallies.len() == 0 {
        acc
    } else {
        merged(merged_all(acc, tallies.drop_last()), tallies.last())
    }
}

/// Sorts the chunks by where they start.
fn chunk_order(chunks: &[ChunkResult]) -> (r: Vec<usize>)
    ensures
        is_order(starts_of(chunks@), r@),
{
    let ghost starts = starts_of(chunks@);
    let mut order: Vec<usize> = Vec::new();
    let mut n: usize = 0;
    while n < chunks.len()
        invariant
            n <= chunks.len(),
            starts == starts_of(chunks@),
            order@.len() == n,
            forall|i: int| 0 <= i < n ==> #[trigger] order@[i] < n,
            forall|i: int, j: int|
                0 <= i < j < n ==> comes_before(
                    starts,
                    #[trigger] order@[i] as int,
                    #[trigger] order@[j] as int,
                ),
        decreases chunks.len() - n,
    {
        let start: usize = chunks[n].chunk_start;
        let mut at: usize = n;
        while at > 0 && chunks[order[at - 1]].chunk_start > start
            invariant
                at <= n < chunks.len(),
                starts == starts_of(chunks@),
                start == starts[n as int],
                order@.len() == n,
                forall|i: int| 0 <= i < n ==> #[trigger] order@[i] < n,
                forall|i: int| at <= i < n ==> starts[#[trigger] order@[i] as int] > start,
            decreases at,
        {
            assert(starts[order@[at - 1] as int] == chunks@[order@[at - 1] as int].chunk_start);
            at = at - 1;
        }
        let ghost before = order@;
        proof {
            if at > 0 {
                assert(starts[before[at - 1] as int] <= start);
                assert forall|i: int| 0 <= i < at implies starts[#[trigger] before[i] as int]
                    <= start by {
                    if i < at - 1 {
                        assert(comes_before(starts, before[i] as int, before[at - 1] as int));
                    }
                }
            }
        }
        order.insert(at, n);
        proof {
            assert forall|i: int, j: int| 0 <= i < j < n + 1 implies comes_before(
                starts,
                #[trigger] order@[i] as int,
                #[trigger] order@[j] as int,
            ) by {
                let x = if i < at {
                    i
                } else {
                    i - 1
                };
                let y = if j < at {
                    j
                } else {
                    j - 1
                };
                if i == at {
                    assert(order@[j] == before[y]);
                } else if j == at {
                    assert(order@[i] == before[x]);
                } else {
                    assert(order@[i] == before[x] && order@[j] == before[y]);
                    assert(comes_before(starts, before[x] as int, before[y] as int));
                }
            }
        }
        n = n + 1;
    }
    order
}

/// A merged parallel run.
pub struct MergedRun {
    pub log: RunLog,
    pub tally_acc: Vec<u64>,
}

/// The merged run is made of the chunks in the order of their starts.
pub open spec fn merges(run: MergedRun, chunks: Seq<ChunkResult>, zeros: Seq<u64>) -> bool {
    exists|order: Seq<usize>| #[trigger]
        is_order(starts_of(chunks), order) && run.log@ == joined(in_order(logs_of(chunks), order))
            && run.tally_acc@ == merged_all(zeros, in_order(tallies_of(chunks), order))
}

/// Puts the chunks of a parallel run back together in particle order.
pub fn merge_chunks(chunks: &[ChunkResult], total_out_len: usize) -> (r: MergedRun)
    requires
        forall|i: int|
            0 <= i < chunks.len() ==> (#[trigger] chunks@[i]).log.wf() && chunks@[i].log@.len()
                <= CHUNK && chunks@[i].tally_acc@.len() == total_out_len,
        chunks.len() * CHUNK <= MAX_HISTORIES,
    ensures
        r.log.wf(),
        r.tally_acc@.len() == total_out_len,
        merges(r, chunks@, Seq::new(total_out_len as nat, |i: int| 0u64)),
{
    let order = chunk_order(chunks);
    let ghost zeros = Seq::new(total_out_len as nat, |i: int| 0u64);
    let ghost logs = in_order(logs_of(chunks@), order@);
    let ghost tallies = in_order(tallies_of(chunks@), order@);
    let mut log = RunLog::new();
    let mut acc: Vec<u64> = filled(total_out_len, 0u64);
    let mut k: usize = 0;
    assert(logs.take(0) =~= Seq::empty());
    assert(tallies.take(0) =~= Seq::empty());
    while k < order.len()
        invariant
            k <= order@.len(),
            order@.len() == chunks.len(),
            is_order(starts_of(chunks@), order@),
            logs == in_order(logs_of(chunks@), order@),
            tallies == in_order(tallies_of(chunks@), order@),
            chunks.len() * CHUNK <= MAX_HISTORIES,
            forall|i: int|
                0 <= i < chunks.len() ==> (#[trigger] chunks@[i]).log.wf() && chunks@[i].log@.len()
                    <= CHUNK && chunks@[i].tally_acc@.len() == total_out_len,
            CHUNK == 4096,
            log@.len() <= k * CHUNK,
            log.wf(),
            log@ == joined(logs.take(k as int)),
            acc@.len() == total_out_len,
            acc@ == merged_all(zeros, tallies.take(k as int)),
        decreases order@.len() - k,
    {
        let c = &chunks[order[k]];
        proof {
            assert(chunks@[order@[k as int] as int].log.wf());
            assert(logs[k as int] == c.log@);
            assert(tallies[k as int] == c.tally_acc@);
            lemma_joined_take(logs, k as int);
        }
        log.extend(&c.log);
        merge(&mut acc, c.tally_acc.as_slice());
        k = k + 1;
        assert(tallies.take(k as int).drop_last() =~= tallies.take(k - 1));
    }
    assert(logs.take(k as int) =~= logs);
    assert(tallies.take(k as int) =~= tallies);
    MergedRun { log, tally_acc: acc }
}

/// The chunks are those of `n` particles, in any order.
pub open spec fn is_plan(starts: Seq<usize>, n: int) -> bool {
    &&& starts.len() == n_chunks(n)
    &&& forall|i: int|
        0 <= i < starts.len() ==> (#[trigger] starts[i]) % CHUNK == 0 && starts[i] < n
    &&& forall|i: int, j: int|
        0 <= i < j < starts.len() ==> #[trigger] starts[i] != #[trigger] starts[j]
}

/// Chunk number `k` of the ordered chunks starts at `k * CHUNK`.
pub proof fn lemma_ordered_starts(starts: Seq<usize>, order: Seq<usize>, n: int, k: int)
    requires
        n >= 0,
        is_plan(starts, n),
        is_order(starts, order),
        0 <= k < starts.len(),
    ensures
        starts[order[k] as int] == k * CHUNK,
{
    lemma_starts_from_below(starts, order, n, k);
    lemma_starts_from_above(starts, order, n, k);
}

proof fn lemma_next_start(starts: Seq<usize>, order: Seq<usize>, n: int, k: int)
    requires
        is_plan(starts, n),
        is_order(starts, order),
        0 <= k,
        k + 1 < starts.len(),
    ensures
        starts[order[k] as int] + CHUNK <= starts[order[k + 1] as int],
{
    let a = order[k] as int;
    let b = order[k + 1] as int;
    assert(comes_before(starts, a, b));
    assert(starts[a] != starts[b]) by {
        if a < b {
            assert(starts[a] != starts[b]);
        } else {
            assert(a != b);
            assert(starts[b] != starts[a]);
        }
    }
    assert(starts[a] % CHUNK == 0 && starts[b] % CHUNK == 0);
    assert(CHUNK == 4096);
}

proof fn lemma_starts_from_below(starts: Seq<usize>, order: Seq<usize>, n: int, k: int)
    requires
        is_plan(starts, n),
        is_order(starts, order),
        0 <= k < starts.len(),
    ensures
        starts[order[k] as int] >= k * CHUNK,
    decreases k,
{
    assert(CHUNK == 4096);
    if k > 0 {
        lemma_starts_from_below(starts, order, n, k - 1);
        lemma_next_start(starts, order, n, k - 1);
    }
}

proof fn lemma_starts_from_above(starts: Seq<usize>, order: Seq<usize>, n: int, k: int)
    requires
        n >= 0,
        is_plan(starts, n),
        is_order(starts, order),
        0 <= k < starts.len(),
    ensures
        starts[order[k] as int] <= k * CHUNK,
    decreases starts.len() - k,
{
    assert(CHUNK == 4096);
    let s = starts[order[k] as int];
    assert(s % CHUNK == 0 && s < n);
    if k + 1 < starts.len() {
        lemma_starts_from_above(starts, order, n, k + 1);
        lemma_next_start(starts, order, n, k);
    } else {
        assert(k == n_chunks(n) - 1);
    }
}

proof fn lemma_joined_chunks(
    outs: Seq<OutcomeState>,
    starts: Seq<usize>,
    logs: Seq<Seq<OutcomeState>>,
    order: Seq<usize>,
    k: int,
)
    requires
        is_plan(starts, outs.len() as int),
        logs.len() == starts.len(),
        forall|i: int|
            0 <= i < logs.len() ==> #[trigger] logs[i] == outs.subrange(
                starts[i] as int,
                end_of_chunk(starts[i] as int, outs.len() as int),
            ),
        is_order(starts, order),
        0 <= k <= starts.len(),
    ensures
        joined(in_order(logs, order).take(k)) == outs.take(
            if k * CHUNK < outs.len() {
                k * CHUNK
            } else {
                outs.len() as int
            },
        ),
    decreases k,
{
    let n = outs.len() as int;
    let all = in_order(logs, order);
    assert(CHUNK == 4096);
    if k > 0 {
        lemma_joined_chunks(outs, starts, logs, order, k - 1);
        lemma_joined_take(all, k - 1);
        lemma_ordered_starts(starts, order, n, k - 1);
        let i = order[k - 1] as int;
        assert(starts[i] < n);
        assert(all[k - 1] == logs[i]);
        let from = (k - 1) * CHUNK;
        let to = end_of_chunk(from, n);
        assert(from < n);
        assert(outs.take(from) + outs.subrange(from, to) =~= outs.take(to));
    } else {
        assert(all.take(0) =~= Seq::empty());
        assert(outs.take(0) =~= Seq::empty());
    }
}

/// A parallel run gives the outcomes of the serial run, in particle order, in
/// whatever order its chunks finished.
pub proof fn parallel_run_is_the_serial_run(
    run: MergedRun,
    chunks: Seq<ChunkResult>,
    zeros: Seq<u64>,
    outs: Seq<OutcomeState>,
)
    requires
        merges(run, chunks, zeros),
        is_plan(starts_of(chunks), outs.len() as int),
        forall|i: int|
            0 <= i < chunks.len() ==> (#[trigger] chunks[i]).log@ == outs.subrange(
                chunks[i].chunk_start as int,
                end_of_chunk(chunks[i].chunk_start as int, outs.len() as int),
            ),
    ensures
        run.log@ == outs,
{
    let starts = starts_of(chunks);
    let logs = logs_of(chunks);
    let order = choose|order: Seq<usize>| #[trigger]
        is_order(starts_of(chunks), order) && run.log@ == joined(in_order(logs_of(chunks), order))
            && run.tally_acc@ == merged_all(zeros, in_order(tallies_of(chunks), order));
    let n = outs.len() as int;
    assert(CHUNK == 4096);
    assert forall|i: int| 0 <= i < logs.len() implies #[trigger] logs[i] == outs.subrange(
        starts[i] as int,
        end_of_chunk(starts[i] as int, n),
    ) by {
        assert(logs[i] == chunks[i].log@);
    }
    lemma_joined_chunks(outs, starts, logs, order, starts.len() as int);
    assert(in_order(logs, order).take(starts.len() as int) =~= in_order(logs, order));
    assert(n_chunks(n) * CHUNK >= n);
    assert(outs.take(n) =~= outs);
}

/// Merging the accumulators of all chunks gives what one accumulator would hold
/// after all their deposits.
pub proof fn merged_chunks_hold_the_serial_tally(
    zeros: Seq<u64>,
    tallies: Seq<Seq<u64>>,
    deposits: Seq<Seq<Deposit>>,
)
    requires
        forall|i: int| 0 <= i < zeros.len() ==> zeros[i] == 0,
        tallies.len() == deposits.len(),
        forall|k: int|
            0 <= k < tallies.len() ==> in_range(#[trigger] deposits[k], zeros.len()) && tallies[k]
                == deposited_all(zeros, deposits[k]),
    ensures
        merged_all(zeros, tallies) == deposited_all(zeros, joined(deposits)),
        in_range(joined(deposits), zeros.len()),
    decreases tallies.len(),
{
    if tallies.len() > 0 {
        let rest = tallies.drop_last();
        let earlier = deposits.drop_last();
        assert forall|k: int| 0 <= k < rest.len() implies in_range(
            #[trigger] earlier[k],
            zeros.len(),
        ) && rest[k] == deposited_all(zeros, earlier[k]) by {
            assert(in_range(deposits[k], zeros.len()));
        }
        merged_chunks_hold_the_serial_tally(zeros, rest, earlier);
        let last = deposits[deposits.len() - 1];
        assert(in_range(last, zeros.len()));
        chunks_merge_to_the_serial_tally(zeros, zeros, joined(earlier), last);
        let both = joined(earlier) + last;
        assert forall|i: int| 0 <= i < both.len() implies (#[trigger] both[i]).slot
            < zeros.len() by {
            if i < joined(earlier).len() {
                assert(both[i] == joined(earlier)[i]);
            } else {
                assert(both[i] == last[i - joined(earlier).len()]);
            }
        }
    }
}

/// `r` reports the run of histories `outs` on the host.
pub open spec fn reports(r: MultiCellResult, outs: Seq<OutcomeState>, capacity: nat) -> bool {
    &&& r.alive@ == alive_of(outs)
    &&& r.n_steps@ == steps_of(outs)
    &&& r.final_energies@ == energies_of(outs)
    &&& r.lost.describes(lost_of(outs), capacity)
    &&& r.n_spilled_secondaries == spilled_of(outs)
    &&& r.max_pend_depth == deepest(outs)
    &&& r.pend_depth_hist@.len() == depths(outs)
    &&& forall|d: int|
        0 <= d < depths(outs) ==> #[trigger] r.pend_depth_hist@[d] == at_depth(outs, d)
}

/// Result of a run on the host, with the records of the first `capacity` losses. It has neither squares nor per-source rows nor banked particles.
pub fn host_result(
    log: RunLog,
    tally_outputs: Vec<Vec<Real>>,
    n_bins_per_tally: &[u32],
    n_cells: usize,
    capacity: usize,
) -> (r: MultiCellResult)
    requires
        log.wf(),
    ensures
        reports(r, log@, capacity as nat),
        r.tally_outputs == tally_outputs,
        r.tally_sum_sq@.len() == 0,
        r.src_acc@.len() == 0,
        r.bank_source_idx@.len() == 0,
        r.n_bins_per_tally@ == n_bins_per_tally@,
        r.n_cells == n_cells,
        r.photon_bank.count == 0,
        r.photon_bank.overflow == 0,
        r.photon_bank.bank_f64@.len() == 0,
        r.photon_bank.bank_u32@.len() == 0,
{
    let mut records: Vec<LostParticleRecord> = Vec::new();
    let mut i: usize = 0;
    assert(log.lost.len() == log.lost@.len());
    while i < log.lost.len() && i < capacity
        invariant
            i <= log.lost@.len(),
            i <= capacity,
            records@ == log.lost@.subrange(0, i as int),
        decreases log.lost@.len() - i,
    {
        records.push(log.lost[i]);
        i = i + 1;
        assert(records@ =~= log.lost@.subrange(0, i as int));
    }
    assert(records@ =~= kept(log.lost@, capacity as nat));
    MultiCellResult {
        alive: log.alive,
        n_steps: log.n_steps,
        final_energies: log.final_energies,
        tally_outputs,
        tally_sum_sq: Vec::new(),
        src_acc: Vec::new(),
        bank_source_idx: Vec::new(),
        n_bins_per_tally: copied(n_bins_per_tally),
        n_cells,
        photon_bank: PhotonBankResult::default(),
        lost: LostParticleResult { count: log.lost.len() as u64, records },
        n_spilled_secondaries: log.n_spilled,
        max_pend_depth: log.max_pend_depth,
        pend_depth_hist: log.pend_depth_hist,
    }
}

/// A run reports its histories one by one: what became of the particle, its steps and
/// its last energy, each at the particle's own number.
pub proof fn every_history_is_reported(r: MultiCellResult, outs: Seq<OutcomeState>, capacity: nat, i: int)
    requires
        reports(r, outs, capacity),
        0 <= i < outs.len(),
    ensures
        r.alive@.len() == outs.len() && r.alive@[i] == outs[i].alive,
        r.n_steps@.len() == outs.len() && r.n_steps@[i] == outs[i].n_steps,
        r.final_energies@.len() == outs.len() && r.final_energies@[i] == outs[i].final_energy,
{
}

/// The losses of a run are those of its histories, one history behind the other, and
/// its spilled secondaries are theirs added up.
pub proof fn losses_and_spills_add_up(outs: Seq<OutcomeState>, o: OutcomeState)
    ensures
        lost_of(Seq::empty()).len() == 0,
        lost_of(outs.push(o)) == lost_of(outs) + o.lost,
        spilled_of(Seq::empty()) == 0,
        spilled_of(outs.push(o)) == spilled_of(outs) + o.n_spilled,
{
    assert(outs.push(o).drop_last() =~= outs);
}

/// All losses are counted, and the first of them are kept, up to the limit.
pub proof fn losses_are_counted_and_the_first_kept(
    r: MultiCellResult,
    outs: Seq<OutcomeState>,
    capacity: nat,
    i: int,
)
    requires
        reports(r, outs, capacity),
    ensures
        r.lost.count == lost_of(outs).len(),
        r.lost.count <= capacity ==> r.lost.records@.len() == r.lost.count,
        r.lost.count > capacity ==> r.lost.records@.len() == capacity,
        0 <= i < r.lost.records@.len() ==> r.lost.records@[i] == lost_of(outs)[i],
        r.n_spilled_secondaries == spilled_of(outs),
{
}

proof fn lemma_deepest(outs: Seq<OutcomeState>)
    ensures
        forall|i: int| 0 <= i < outs.len() ==> (#[trigger] outs[i]).max_pend_depth <= deepest(outs),
        outs.len() > 0 ==> exists|i: int|
            0 <= i < outs.len() && (#[trigger] outs[i]).max_pend_depth == deepest(outs),
    decreases outs.len(),
{
    if outs.len() > 0 {
        let rest = outs.drop_last();
        lemma_deepest(rest);
        let k = outs.len() - 1;
        assert(outs[k] == outs.last());
        assert forall|i: int| 0 <= i < outs.len() implies (#[trigger] outs[i]).max_pend_depth
            <= deepest(outs) by {
            if i < k {
                assert(rest[i] == outs[i]);
            }
        }
        if rest.len() > 0 && outs.last().max_pend_depth <= deepest(rest) {
            let i = choose|i: int|
                0 <= i < rest.len() && (#[trigger] rest[i]).max_pend_depth == deepest(rest);
            assert(outs[i] == rest[i]);
        }
    }
}

/// The deepest stack of a run is that of one of its histories, and no history had a
/// deeper one.
pub proof fn the_deepest_stack_is_some_historys(
    r: MultiCellResult,
    outs: Seq<OutcomeState>,
    capacity: nat,
)
    requires
        reports(r, outs, capacity),
    ensures
        forall|i: int|
            0 <= i < outs.len() ==> (#[trigger] outs[i]).max_pend_depth <= r.max_pend_depth,
        outs.len() > 0 ==> exists|i: int|
            0 <= i < outs.len() && (#[trigger] outs[i]).max_pend_depth == r.max_pend_depth,
        outs.len() == 0 ==> r.max_pend_depth == 0 && r.pend_depth_hist@.len() == 0,
        outs.len() > 0 ==> r.pend_depth_hist@.len() == r.max_pend_depth + 1,
{
    lemma_deepest(outs);
}

proof fn lemma_at_depth(outs: Seq<OutcomeState>, d: int)
    ensures
        at_depth(outs, d) == outs.filter(|o: OutcomeState| o.max_pend_depth == d).len(),
    decreases outs.len(),
{
    reveal(Seq::filter);
    if outs.len() > 0 {
        lemma_at_depth(outs.drop_last(), d);
    }
}

/// The histogram counts at each depth the histories whose stack grew that deep.
pub proof fn the_histogram_counts_histories(
    r: MultiCellResult,
    outs: Seq<OutcomeState>,
    capacity: nat,
    d: int,
)
    requires
        reports(r, outs, capacity),
        0 <= d < r.pend_depth_hist@.len(),
    ensures
        r.pend_depth_hist@[d] == outs.filter(|o: OutcomeState| o.max_pend_depth == d).len(),
{
    lemma_at_depth(outs, d);
}

/// A chunk holds 4096 particles, the last what is left: each chunk begins where the
/// one before it ends, the first at zero, and the last ends with the particles.
pub proof fn chunks_follow_one_another(n: usize, r: Vec<usize>, k: int, end: usize)
    requires
        call_ensures(chunk_starts, (n,), r),
        0 <= k < r@.len(),
        r@[k] <= n,
        call_ensures(chunk_end, (r@[k], n), end),
    ensures
        r@[0] == 0,
        r@[k] == 4096 * k,
        end - r@[k] <= 4096,
        k + 1 < r@.len() ==> end == r@[k + 1],
        k + 1 == r@.len() ==> end == n,
{
    let c = n_chunks(n as int);
    assert(r@.len() == c);
    assert(c * 4096 >= n && (c - 1) * 4096 < n);
    assert(r@[k] == (k * CHUNK) as usize);
    assert(r@[0] == (0 * CHUNK) as usize);
    if k + 1 < r@.len() {
        assert(r@[k + 1] == ((k + 1) * CHUNK) as usize);
    }
}

} // verus!
