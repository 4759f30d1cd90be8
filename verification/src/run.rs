//! Runs of many histories on the host, one by one or in parallel chunks.
use crate::drivers::{
    chunk_end, chunk_starts, end_of_chunk, host_result, in_order, is_order, is_plan,
    lemma_ordered_starts, logs_of, merge_chunks, merged_all, merged_chunks_hold_the_serial_tally,
    merges, n_chunks, reports, starts_of, tallies_of, ChunkResult, MergedRun, RunLog, CHUNK,
    MAX_HISTORIES,
};
use crate::history::{CollisionRecord, OutcomeState, ParticleOutcome};
use crate::ieee::Real;
use crate::lengths::{all_hold, is_first_failure, TransportLengths};
use crate::pack::{filled, joined, lemma_joined_push, lemma_joined_take};
use crate::result::MultiCellResult;
use crate::tally::{decoded, unpack_tally_outputs, TalliesPack};
use crate::validate::{
    is_first_tally_failure, tallies_valid, transport_checks, validate_transport_inputs, LayoutError,
};
use crate::words::{
    accumulation_is_a_sum, deposit_all, deposited_all, in_range, signed, total_at, Deposit,
};
use rayon::iter::{IntoParallelIterator, ParallelIterator};
use vstd::prelude::*;

verus! {

/// What the transport of one particle gives: its outcome, what it scored and,
/// in a traced run, its collisions.
pub struct HistoryRun {
    pub outcome: ParticleOutcome,
    pub deposits: Vec<Deposit>,
    pub trace: Vec<CollisionRecord>,
}

pub open spec fn outcomes_of(runs: Seq<HistoryRun>) -> Seq<OutcomeState> {
    runs.map_values(|h: HistoryRun| h.outcome@)
}

pub open spec fn deposits_of(runs: Seq<HistoryRun>) -> Seq<Seq<Deposit>> {
    runs.map_values(|h: HistoryRun| h.deposits@)
}

/// What the histories scored, in particle order.
pub open spec fn scored(runs: Seq<HistoryRun>) -> Seq<Deposit> {
    joined(deposits_of(runs))
}

pub open spec fn zero_words(n: nat) -> Seq<u64> {
    Seq::new(n, |i: int| 0u64)
}

/// Run `i` is what `history` gives for particle `from + i`.
pub open spec fn are_runs<H: Fn(usize) -> HistoryRun>(
    history: H,
    from: int,
    runs: Seq<HistoryRun>,
) -> bool {
    forall|i: int|
        0 <= i < runs.len() ==> call_ensures(history, ((from + i) as usize,), #[trigger] runs[i])
}

/// `history` can transport each of `n` particles, and scores in a tally of
/// `total` words.
pub open spec fn can_run<H: Fn(usize) -> HistoryRun>(history: &H, n: int, total: nat) -> bool {
    &&& forall|i: usize| i < n ==> call_requires(*history, (i,))
    &&& forall|i: usize, h: HistoryRun| #[trigger]
        call_ensures(*history, (i,), h) ==> in_range(h.deposits@, total) && h.outcome.max_pend_depth
            < usize::MAX
}

/// The traces of all runs, or none.
pub open spec fn are_traces(
    traces: Seq<Vec<CollisionRecord>>,
    runs: Seq<HistoryRun>,
    traced: bool,
) -> bool {
    &&& traces.len() == if traced {
        runs.len()
    } else {
        0
    }
    &&& forall|i: int| 0 <= i < traces.len() ==> (#[trigger] traces[i])@ == runs[i].trace@
}

/// Particles `start` to `end`, transported one after the other.
pub struct RangeRun {
    pub log: RunLog,
    pub tally_acc: Vec<u64>,
    pub traces: Vec<Vec<CollisionRecord>>,
}

impl RangeRun {
    /// The range is made of these runs.
    pub open spec fn holds(self, runs: Seq<HistoryRun>, total: nat, traced: bool) -> bool {
        &&& self.log.wf()
        &&& self.log@ == outcomes_of(runs)
        &&& self.tally_acc@ == deposited_all(zero_words(total), scored(runs))
        &&& self.tally_acc@.len() == total
        &&& are_traces(self.traces@, runs, traced)
    }
}

/// Transports particles `start` to `end`, and keeps their traces if asked to.
pub fn run_range<H: Fn(usize) -> HistoryRun>(
    history: &H,
    start: usize,
    end: usize,
    total_out_len: usize,
    capture_trace: bool,
) -> (r: RangeRun)
    requires
        start <= end,
        end - start <= MAX_HISTORIES,
        can_run(history, end as int, total_out_len as nat),
    ensures
        exists|runs: Seq<HistoryRun>| #[trigger]
            are_runs(*history, start as int, runs) && runs.len() == end - start && r.holds(
                runs,
                total_out_len as nat,
                capture_trace,
            ),
{
    let ghost total = total_out_len as nat;
    let ghost mut runs: Seq<HistoryRun> = Seq::empty();
    let mut r = RangeRun {
        log: RunLog::new(),
        tally_acc: filled(total_out_len, 0u64),
        traces: Vec::new(),
    };
    proof {
        assert(outcomes_of(runs) =~= Seq::empty());
        assert(deposits_of(runs) =~= Seq::empty());
    }
    let mut i: usize = start;
    while i < end
        invariant
            start <= i <= end,
            end - start <= MAX_HISTORIES,
            total == total_out_len,
            can_run(history, end as int, total),
            runs.len() == i - start,
            are_runs(*history, start as int, runs),
            r.holds(runs, total, capture_trace),
        decreases end - i,
    {
        let run = history(i);
        let ghost before = runs;
        let ghost after = runs.push(run);
        proof {
            assert(in_range(run.deposits@, total));
            lemma_joined_push(deposits_of(before), run.deposits@);
            assert(deposits_of(after) =~= deposits_of(before).push(run.deposits@));
            assert(outcomes_of(after) =~= outcomes_of(before).push(run.outcome@));
            crate::words::lemma_deposit_in_parts(
                zero_words(total),
                scored(before),
                run.deposits@,
            );
            assert forall|j: int| 0 <= j < after.len() implies call_ensures(
                *history,
                ((start + j) as usize,),
                #[trigger] after[j],
            ) by {
                if j < before.len() {
                    assert(after[j] == before[j]);
                }
            }
            runs = after;
        }
        let ghost traces0 = r.traces@;
        let HistoryRun { outcome, deposits, trace } = run;
        r.log.record(outcome);
        deposit_all(&mut r.tally_acc, deposits.as_slice());
        if capture_trace {
            r.traces.push(trace);
        }
        proof {
            assert forall|j: int| 0 <= j < r.traces@.len() implies (#[trigger] r.traces@[j])@
                == runs[j].trace@ by {
                if j < traces0.len() {
                    assert(r.traces@[j] == traces0[j]);
                }
            }
        }
        i = i + 1;
    }
    r
}

/// The tallies' output ranges follow one another.
pub open spec fn ranges_follow(t: TalliesPack) -> bool {
    forall|k: int|
        0 <= k < t.n() ==> #[trigger] t.out_offsets@[k] <= t.out_offsets@[k + 1]
            && t.out_offsets@[k + 1] <= t.out_offsets@[t.n() as int]
}

/// What a run on the host is given.
pub struct HostRun<'a> {
    pub lengths: &'a TransportLengths,
    pub tallies: &'a TalliesPack,
    pub fine_meta: &'a [u32],
    pub mat_nuclide_meta: &'a [u32],
    pub permt_meta: &'a [u32],
    /// Particles to transport.
    pub n: usize,
    /// Losses whose records are kept.
    pub lost_capacity: usize,
}

impl<'a> HostRun<'a> {
    /// The lengths are those of the tables.
    pub open spec fn wf(self) -> bool {
        &&& self.lengths.fine_meta == self.fine_meta.len()
        &&& self.lengths.mat_nuclide_meta == self.mat_nuclide_meta.len()
        &&& self.lengths.permt_meta == self.permt_meta.len()
        &&& self.n <= MAX_HISTORIES
        &&& ranges_follow(*self.tallies)
        &&& self.tallies.n() < self.tallies.out_offsets@.len()
    }

    /// The inputs pass validation.
    pub open spec fn valid(self) -> bool {
        &&& self.tallies.n() > 0
        &&& all_hold(
            transport_checks(
                *self.lengths,
                *self.tallies,
                self.fine_meta@,
                self.mat_nuclide_meta@,
                self.permt_meta@,
            ),
        )
        &&& tallies_valid(*self.tallies)
    }

    /// The first failure of validation.
    pub open spec fn fails_with(self, e: LayoutError) -> bool {
        let checks = transport_checks(
            *self.lengths,
            *self.tallies,
            self.fine_meta@,
            self.mat_nuclide_meta@,
            self.permt_meta@,
        );
        match e {
            LayoutError::NoTallies => self.tallies.n() == 0,
            LayoutError::Length(c) => self.tallies.n() > 0 && is_first_failure(checks, c@),
            LayoutError::TooFewBindings { .. } => false,
            _ => self.tallies.n() > 0 && all_hold(checks) && is_first_tally_failure(
                *self.tallies,
                e,
            ),
        }
    }

    /// Words of the flat tally accumulator.
    pub open spec fn total(self) -> nat {
        self.tallies.out_offsets@[self.tallies.n() as int] as nat
    }

    fn validate(&self) -> (r: Result<(), LayoutError>)
        requires
            self.wf(),
        ensures
            r is Ok <==> self.valid(),
            r matches Err(e) ==> self.fails_with(e),
    {
        validate_transport_inputs(
            self.lengths,
            self.tallies,
            self.fine_meta,
            self.mat_nuclide_meta,
            self.permt_meta,
        )
    }

    fn report<D: Fn(usize, i64) -> Real>(&self, log: RunLog, words: &[u64], decode: D) -> (r:
        MultiCellResult)
        requires
            self.wf(),
            log.wf(),
            words.len() == self.total(),
            forall|t: usize, w: i64| call_requires(decode, (t, w)),
        ensures
            reports(r, log@, self.lost_capacity as nat),
            r.n_bins_per_tally@ == self.tallies.n_bins_per_tally@,
            r.n_cells == self.lengths.n_cells,
            r.tally_sum_sq@.len() == 0,
            r.src_acc@.len() == 0,
            r.bank_source_idx@.len() == 0,
            r.photon_bank.count == 0,
            r.photon_bank.overflow == 0,
            r.photon_bank.bank_f64@.len() == 0,
            r.photon_bank.bank_u32@.len() == 0,
            r.tally_outputs@.len() == self.tallies.n(),
            forall|k: int|
                0 <= k < self.tallies.n() ==> decoded(
                    decode,
                    k as usize,
                    words@,
                    self.tallies.out_offsets@[k] as int,
                    self.tallies.out_offsets@[k + 1] as int,
                    (#[trigger] r.tally_outputs@[k])@,
                ),
    {
        let outputs = unpack_tally_outputs(
            words,
            self.tallies.out_offsets.as_slice(),
            self.tallies.score_kinds.len(),
            decode,
        );
        host_result(
            log,
            outputs,
            self.tallies.n_bins_per_tally.as_slice(),
            self.lengths.n_cells,
            self.lost_capacity,
        )
    }
}

/// Words of the flat tally accumulator after the given runs.
pub open spec fn words_of(run: HostRun, runs: Seq<HistoryRun>) -> Seq<u64> {
    deposited_all(zero_words(run.total()), scored(runs))
}

/// The result reports the histories that `history` gives for the particles of
/// the run, and its tallies hold what they scored, decoded. It has neither
/// squares nor per-source rows nor banked particles.
pub open spec fn reports_run<H: Fn(usize) -> HistoryRun, D: Fn(usize, i64) -> Real>(
    r: MultiCellResult,
    run: HostRun,
    history: H,
    runs: Seq<HistoryRun>,
    decode: D,
) -> bool {
    let t = *run.tallies;
    &&& runs.len() == run.n
    &&& are_runs(history, 0, runs)
    &&& reports(r, outcomes_of(runs), run.lost_capacity as nat)
    &&& r.n_cells == run.lengths.n_cells
    &&& r.n_bins_per_tally@ == t.n_bins_per_tally@
    &&& r.tally_outputs@.len() == t.n()
    &&& forall|k: int|
        0 <= k < t.n() ==> decoded(
            decode,
            k as usize,
            words_of(run, runs),
            t.out_offsets@[k] as int,
            t.out_offsets@[k + 1] as int,
            (#[trigger] r.tally_outputs@[k])@,
        )
    &&& r.tally_sum_sq@.len() == 0
    &&& r.src_acc@.len() == 0
    &&& r.bank_source_idx@.len() == 0
    &&& r.photon_bank.count == 0
    &&& r.photon_bank.overflow == 0
    &&& r.photon_bank.bank_f64@.len() == 0
    &&& r.photon_bank.bank_u32@.len() == 0
}

/// Transports all particles one after the other. Inputs that do not pass
/// validation are refused; traces are kept if asked for.
pub fn run_multi_cell_transport_cpu<
    H: Fn(usize) -> HistoryRun,
    D: Fn(usize, i64) -> Real,
>(run: &HostRun, history: &H, decode: D, capture_trace: bool) -> (r: Result<
    (MultiCellResult, Vec<Vec<CollisionRecord>>),
    LayoutError,
>)
    requires
        run.wf(),
        run.valid() ==> can_run(history, run.n as int, run.total()),
        forall|t: usize, w: i64| call_requires(decode, (t, w)),
    ensures
        r is Ok <==> run.valid(),
        r matches Err(e) ==> run.fails_with(e),
        r is Ok ==> exists|runs: Seq<HistoryRun>| #[trigger]
            reports_run(
                r->Ok_0.0,
                *run,
                *history,
                runs,
                decode,
            ) && are_traces(r->Ok_0.1@, runs, capture_trace),
{
    if let Err(e) = run.validate() {
        return Err(e);
    }
    let total: usize = run.tallies.out_offsets[run.tallies.score_kinds.len()] as usize;
    let all = run_range(history, 0, run.n, total, capture_trace);
    let ghost runs = choose|runs: Seq<HistoryRun>| #[trigger]
        are_runs(*history, 0, runs) && runs.len() == run.n - 0 && all.holds(
            runs,
            total as nat,
            capture_trace,
        );
    let result = run.report(all.log, all.tally_acc.as_slice(), decode);
    assert(reports_run(result, *run, *history, runs, decode));
    let traces = all.traces;
    assert(are_traces(traces@, runs, capture_trace));
    let r: Result<(MultiCellResult, Vec<Vec<CollisionRecord>>), LayoutError> = Ok((result, traces));
    assert(r->Ok_0.0 == result && r->Ok_0.1 == traces);
    r
}

/// Transports one chunk.
fn run_chunk<H: Fn(usize) -> HistoryRun>(history: &H, start: usize, n: usize, total_out_len: usize) -> (r:
    ChunkResult)
    requires
        start <= n,
        can_run(history, n as int, total_out_len as nat),
    ensures
        is_chunk(history, r, start as int, n as int, total_out_len as nat),
{
    let end: usize = chunk_end(start, n);
    assert(can_run(history, end as int, total_out_len as nat));
    let part = run_range(history, start, end, total_out_len, false);
    let ghost runs = choose|runs: Seq<HistoryRun>| #[trigger]
        are_runs(*history, start as int, runs) && runs.len() == end - start && part.holds(
            runs,
            total_out_len as nat,
            false,
        );
    let r = ChunkResult { chunk_start: start, log: part.log, tally_acc: part.tally_acc };
    assert(are_chunk_runs(*history, r, start as int, n as int, total_out_len as nat, runs));
    r
}

/// `runs` are those of the chunk that starts at `start`.
pub open spec fn are_chunk_runs<H: Fn(usize) -> HistoryRun>(
    history: H,
    c: ChunkResult,
    start: int,
    n: int,
    total: nat,
    runs: Seq<HistoryRun>,
) -> bool {
    &&& are_runs(history, start, runs)
    &&& runs.len() == end_of_chunk(start, n) - start
    &&& c.log@ == outcomes_of(runs)
    &&& c.tally_acc@ == deposited_all(zero_words(total), scored(runs))
}

/// `c` is the chunk that starts at `start`.
pub open spec fn is_chunk<H: Fn(usize) -> HistoryRun>(
    history: &H,
    c: ChunkResult,
    start: int,
    n: int,
    total: nat,
) -> bool {
    &&& c.chunk_start == start
    &&& c.log.wf()
    &&& c.log@.len() <= CHUNK
    &&& c.tally_acc@.len() == total
    &&& exists|runs: Seq<HistoryRun>| are_chunk_runs(*history, c, start, n, total, runs)
}

/// Applies a function to all items, in parallel, by rayon's `into_par_iter`,
/// `map` and `collect`: the results stand in the order of the items.
#[verifier::external_body]
fn map_in_parallel<F: Fn(usize) -> ChunkResult + Sync>(items: Vec<usize>, f: &F) -> (r: Vec<
    ChunkResult,
>)
    requires
        forall|i: int| 0 <= i < items@.len() ==> call_requires(*f, (#[trigger] items@[i],)),
    ensures
        r@.len() == items@.len(),
        forall|i: int|
            0 <= i < items@.len() ==> call_ensures(*f, (#[trigger] items@[i],), r@[i]),
{
    items.into_par_iter().map(|item| f(item)).collect()
}

/// The runs of chunk `k`.
spec fn runs_of_chunk<H: Fn(usize) -> HistoryRun>(
    history: H,
    chunks: Seq<ChunkResult>,
    n: int,
    total: nat,
    k: int,
) -> Seq<HistoryRun> {
    let start = k * CHUNK;
    choose|runs: Seq<HistoryRun>| are_chunk_runs(history, chunks[k], start, n, total, runs)
}

spec fn runs_of_chunks<H: Fn(usize) -> HistoryRun>(
    history: H,
    chunks: Seq<ChunkResult>,
    n: int,
    total: nat,
) -> Seq<Seq<HistoryRun>> {
    Seq::new(chunks.len(), |k: int| runs_of_chunk(history, chunks, n, total, k))
}

/// The runs of the first `k` chunks are those of the particles before chunk
/// `k`.
proof fn lemma_runs_of_chunks<H: Fn(usize) -> HistoryRun>(
    history: H,
    chunks: Seq<ChunkResult>,
    n: int,
    total: nat,
    k: int,
)
    requires
        0 <= n,
        chunks.len() == n_chunks(n),
        forall|j: int|
            0 <= j < chunks.len() ==> is_chunk(&history, #[trigger] chunks[j], j * CHUNK, n, total),
        0 <= k <= chunks.len(),
    ensures
        ({
            let parts = runs_of_chunks(history, chunks, n, total);
            let runs = joined(parts.take(k));
            &&& runs.len() == if k * CHUNK < n {
                k * CHUNK
            } else {
                n
            }
            &&& are_runs(history, 0, runs)
            &&& outcomes_of(runs) == joined(logs_of(chunks).take(k))
            &&& scored(runs) == joined(scored_in_parts(parts).take(k))
        }),
    decreases k,
{
    let parts = runs_of_chunks(history, chunks, n, total);
    let logs = logs_of(chunks);
    let scores = scored_in_parts(parts);
    assert(CHUNK == 4096);
    if k == 0 {
        assert(parts.take(0) =~= Seq::empty());
        assert(logs.take(0) =~= Seq::empty());
        assert(scores.take(0) =~= Seq::empty());
        let none = Seq::<HistoryRun>::empty();
        assert(outcomes_of(none) =~= Seq::empty());
        assert(deposits_of(none) =~= Seq::empty());
    } else {
        lemma_runs_of_chunks(history, chunks, n, total, k - 1);
        let from = (k - 1) * CHUNK;
        let earlier = joined(parts.take(k - 1));
        let own = parts[k - 1];
        assert(is_chunk(&history, chunks[k - 1], from, n, total));
        assert(own == runs_of_chunk(history, chunks, n, total, k - 1));
        assert(are_chunk_runs(history, chunks[k - 1], from, n, total, own));
        lemma_joined_take(parts, k - 1);
        lemma_joined_take(logs, k - 1);
        lemma_joined_take(scores, k - 1);
        assert(from < n);
        assert(outcomes_of(earlier + own) =~= outcomes_of(earlier) + outcomes_of(own));
        lemma_scored_append(earlier, own);
        assert forall|i: int| 0 <= i < (earlier + own).len() implies call_ensures(
            history,
            ((0 + i) as usize,),
            #[trigger] (earlier + own)[i],
        ) by {
            if i < earlier.len() {
                assert((earlier + own)[i] == earlier[i]);
            } else {
                assert((earlier + own)[i] == own[i - from]);
            }
        }
    }
}

/// What each part scored.
spec fn scored_in_parts(parts: Seq<Seq<HistoryRun>>) -> Seq<Seq<Deposit>> {
    parts.map_values(|runs: Seq<HistoryRun>| scored(runs))
}

pub(crate) proof fn lemma_scored_append(a: Seq<HistoryRun>, b: Seq<HistoryRun>)
    ensures
        scored(a + b) == scored(a) + scored(b),
    decreases b.len(),
{
    if b.len() == 0 {
        assert(a + b =~= a);
        assert(deposits_of(b) =~= Seq::empty());
        assert(scored(a) + scored(b) =~= scored(a));
    } else {
        let rest = b.drop_last();
        let last = b.last().deposits@;
        lemma_scored_append(a, rest);
        assert(deposits_of(a + b) =~= deposits_of(a + rest).push(last));
        assert(deposits_of(b) =~= deposits_of(rest).push(last));
        lemma_joined_push(deposits_of(a + rest), last);
        lemma_joined_push(deposits_of(rest), last);
        assert(scored(a) + (scored(rest) + last) =~= (scored(a) + scored(rest)) + last);
    }
}

/// Chunks that stand in order are merged as they stand.
proof fn lemma_order_is_identity(starts: Seq<usize>, order: Seq<usize>, n: int)
    requires
        0 <= n <= usize::MAX,
        starts == Seq::new(n_chunks(n) as nat, |k: int| (k * CHUNK) as usize),
        is_order(starts, order),
    ensures
        is_plan(starts, n),
        forall|k: int| 0 <= k < order.len() ==> #[trigger] order[k] == k,
{
    assert(CHUNK == 4096);
    assert forall|i: int| 0 <= i < starts.len() implies (#[trigger] starts[i]) % CHUNK == 0
        && starts[i] < n && starts[i] == i * CHUNK by {
        assert(i * CHUNK < n);
    }
    assert forall|k: int| 0 <= k < order.len() implies #[trigger] order[k] == k by {
        lemma_ordered_starts(starts, order, n, k);
        assert(starts[order[k] as int] == order[k] * CHUNK);
    }
}

/// The merged chunks are one run over all particles.
proof fn lemma_merged_chunks_are_the_run<H: Fn(usize) -> HistoryRun>(
    history: H,
    merged: MergedRun,
    chunks: Seq<ChunkResult>,
    n: int,
    total: nat,
)
    requires
        0 <= n <= usize::MAX,
        starts_of(chunks) == Seq::new(n_chunks(n) as nat, |k: int| (k * CHUNK) as usize),
        forall|j: int|
            0 <= j < chunks.len() ==> is_chunk(&history, #[trigger] chunks[j], j * CHUNK, n, total),
        forall|i: usize, h: HistoryRun| #[trigger]
            call_ensures(history, (i,), h) ==> in_range(h.deposits@, total),
        merges(merged, chunks, zero_words(total)),
    ensures
        exists|runs: Seq<HistoryRun>| #[trigger]
            are_runs(history, 0, runs) && runs.len() == n && merged.log@ == outcomes_of(runs)
                && merged.tally_acc@ == deposited_all(zero_words(total), scored(runs)),
{
    let starts = starts_of(chunks);
    let order = choose|order: Seq<usize>| #[trigger]
        is_order(starts_of(chunks), order) && merged.log@ == joined(
            in_order(logs_of(chunks), order),
        ) && merged.tally_acc@ == merged_all(
            zero_words(total),
            in_order(tallies_of(chunks), order),
        );
    lemma_order_is_identity(starts, order, n);
    assert(in_order(logs_of(chunks), order) =~= logs_of(chunks));
    assert(in_order(tallies_of(chunks), order) =~= tallies_of(chunks));
    let all = chunks.len() as int;
    lemma_runs_of_chunks(history, chunks, n, total, all);
    let parts = runs_of_chunks(history, chunks, n, total);
    let scores = scored_in_parts(parts);
    let runs = joined(parts);
    assert(parts.take(all) =~= parts);
    assert(logs_of(chunks).take(all) =~= logs_of(chunks));
    assert(scores.take(all) =~= scores);
    assert(CHUNK == 4096);
    assert(n_chunks(n) * CHUNK >= n);
    let tallies = tallies_of(chunks);
    assert forall|k: int| 0 <= k < tallies.len() implies in_range(#[trigger] scores[k], total)
        && tallies[k] == deposited_all(zero_words(total), scores[k]) by {
        assert(is_chunk(&history, chunks[k], k * CHUNK, n, total));
        assert(parts[k] == runs_of_chunk(history, chunks, n, total, k));
        assert(are_chunk_runs(history, chunks[k], k * CHUNK, n, total, parts[k]));
        lemma_scored_in_range(history, k * CHUNK, parts[k], total);
    }
    merged_chunks_hold_the_serial_tally(zero_words(total), tallies, scores);
    assert(are_runs(history, 0, runs));
}

pub(crate) proof fn lemma_scored_in_range<H: Fn(usize) -> HistoryRun>(
    history: H,
    from: int,
    runs: Seq<HistoryRun>,
    total: nat,
)
    requires
        are_runs(history, from, runs),
        forall|i: usize, h: HistoryRun| #[trigger]
            call_ensures(history, (i,), h) ==> in_range(h.deposits@, total),
    ensures
        in_range(scored(runs), total),
    decreases runs.len(),
{
    if runs.len() > 0 {
        let rest = runs.drop_last();
        let last = runs.last();
        assert forall|i: int| 0 <= i < rest.len() implies call_ensures(
            history,
            ((from + i) as usize,),
            #[trigger] rest[i],
        ) by {
            assert(rest[i] == runs[i]);
        }
        lemma_scored_in_range(history, from, rest, total);
        assert(call_ensures(history, ((from + rest.len()) as usize,), runs[rest.len() as int]));
        assert(deposits_of(runs) =~= deposits_of(rest).push(last.deposits@));
        lemma_joined_push(deposits_of(rest), last.deposits@);
        let both = scored(rest) + last.deposits@;
        assert forall|i: int| 0 <= i < both.len() implies (#[trigger] both[i]).slot < total by {
            if i < scored(rest).len() {
                assert(both[i] == scored(rest)[i]);
            } else {
                assert(both[i] == last.deposits@[i - scored(rest).len()]);
            }
        }
    } else {
        assert(deposits_of(runs) =~= Seq::empty());
    }
}

/// Transports all particles in parallel chunks. The result is that of the
/// serial run; no traces are kept.
pub fn run_multi_cell_transport_cpu_rayon<
    H: Fn(usize) -> HistoryRun + Sync,
    D: Fn(usize, i64) -> Real,
>(run: &HostRun, history: &H, decode: D) -> (r: Result<MultiCellResult, LayoutError>)
    requires
        run.wf(),
        run.valid() ==> can_run(history, run.n as int, run.total()),
        forall|t: usize, w: i64| call_requires(decode, (t, w)),
    ensures
        r is Ok <==> run.valid(),
        r matches Err(e) ==> run.fails_with(e),
        r is Ok ==> exists|runs: Seq<HistoryRun>| #[trigger]
            reports_run(
                r->Ok_0,
                *run,
                *history,
                runs,
                decode,
            ),
{
    if let Err(e) = run.validate() {
        return Err(e);
    }
    let n: usize = run.n;
    let total: usize = run.tallies.out_offsets[run.tallies.score_kinds.len()] as usize;
    let starts = chunk_starts(n);
    let ghost starts_seq = starts@;
    let work = |start: usize| -> (c: ChunkResult)
        requires
            start <= n,
            can_run(history, n as int, total as nat),
        ensures
            is_chunk(history, c, start as int, n as int, total as nat),
        { run_chunk(history, start, n, total) };
    assert(CHUNK == 4096);
    assert forall|i: int| 0 <= i < starts@.len() implies call_requires(
        work,
        (#[trigger] starts@[i],),
    ) by {
        assert(i * CHUNK < n);
    }
    let chunks = map_in_parallel(starts, &work);
    proof {
        assert forall|j: int| 0 <= j < chunks@.len() implies is_chunk(
            history,
            #[trigger] chunks@[j],
            j * CHUNK,
            n as int,
            total as nat,
        ) by {
            assert(call_ensures(work, (starts_seq[j],), chunks@[j]));
            assert(j * CHUNK < n);
        }
        assert(starts_of(chunks@) =~= starts_seq);
        assert(chunks@.len() * CHUNK <= MAX_HISTORIES);
    }
    let merged = merge_chunks(chunks.as_slice(), total);
    proof {
        lemma_merged_chunks_are_the_run(*history, merged, chunks@, n as int, total as nat);
    }
    let ghost runs = choose|runs: Seq<HistoryRun>| #[trigger]
        are_runs(*history, 0, runs) && runs.len() == n && merged.log@ == outcomes_of(runs)
            && merged.tally_acc@ == deposited_all(zero_words(total as nat), scored(runs));
    let result = run.report(merged.log, merged.tally_acc.as_slice(), decode);
    let r: Result<MultiCellResult, LayoutError> = Ok(result);
    assert(reports_run(r->Ok_0, *run, *history, runs, decode));
    r
}

/// What a run tells of its histories: for each particle how its own history ended, and
/// in every bin of every tally the deposits of all histories there, added up modulo
/// `2^64` and decoded as that tally's.
pub open spec fn tells_its_histories<H: Fn(usize) -> HistoryRun, D: Fn(usize, i64) -> Real>(
    r: MultiCellResult,
    run: HostRun,
    history: H,
    decode: D,
    runs: Seq<HistoryRun>,
) -> bool {
    let t = *run.tallies;
    &&& runs.len() == run.n
    &&& forall|i: int|
        0 <= i < run.n ==> call_ensures(history, (i as usize,), #[trigger] runs[i])
    &&& r.alive@.len() == run.n && r.n_steps@.len() == run.n && r.final_energies@.len() == run.n
    &&& forall|i: int| 0 <= i < run.n ==> #[trigger] r.alive@[i] == runs[i].outcome@.alive
    &&& forall|i: int| 0 <= i < run.n ==> #[trigger] r.n_steps@[i] == runs[i].outcome@.n_steps
    &&& forall|i: int|
        0 <= i < run.n ==> #[trigger] r.final_energies@[i] == runs[i].outcome@.final_energy
    &&& r.tally_outputs@.len() == t.score_kinds@.len()
    &&& forall|k: int|
        0 <= k < t.score_kinds@.len() ==> (#[trigger] r.tally_outputs@[k])@.len()
            == t.out_offsets@[k + 1] - t.out_offsets@[k]
    &&& forall|k: int, b: int|
        0 <= k < t.score_kinds@.len() && 0 <= b < r.tally_outputs@[k]@.len()
            ==> is_decoded_sum(
            decode,
            k as usize,
            total_at(scored(runs), t.out_offsets@[k] + b),
            #[trigger] r.tally_outputs@[k]@[b],
        )
}

/// The value is what the decoder gives for the sum, wrapped into a signed word.
pub open spec fn is_decoded_sum<D: Fn(usize, i64) -> Real>(
    decode: D,
    tally: usize,
    sum: int,
    value: Real,
) -> bool {
    exists|word: i64| #[trigger]
        call_ensures(decode, (tally, word), value) && (sum - word) % 0x1_0000_0000_0000_0000 == 0
}

proof fn lemma_tells<H: Fn(usize) -> HistoryRun, D: Fn(usize, i64) -> Real>(
    r: MultiCellResult,
    run: HostRun,
    history: H,
    decode: D,
    runs: Seq<HistoryRun>,
)
    requires
        run.wf(),
        can_run(&history, run.n as int, run.total()),
        reports_run(r, run, history, runs, decode),
    ensures
        tells_its_histories(r, run, history, decode, runs),
{
    let t = *run.tallies;
    let outs = outcomes_of(runs);
    let ds = scored(runs);
    let words = words_of(run, runs);
    assert forall|i: int| 0 <= i < run.n implies call_ensures(
        history,
        (i as usize,),
        #[trigger] runs[i],
    ) by {
        assert(call_ensures(history, ((0 + i) as usize,), runs[i]));
    }
    assert forall|i: int| 0 <= i < runs.len() implies in_range(
        #[trigger] deposits_of(runs)[i],
        run.total(),
    ) by {
        assert(call_ensures(history, ((0 + i) as usize,), runs[i]));
    }
    lemma_joined_in_range(deposits_of(runs), run.total());
    assert forall|i: int| 0 <= i < run.n implies #[trigger] r.alive@[i] == runs[i].outcome@.alive by {
        assert(outs[i] == runs[i].outcome@);
    }
    assert forall|i: int| 0 <= i < run.n implies #[trigger] r.n_steps@[i]
        == runs[i].outcome@.n_steps by {
        assert(outs[i] == runs[i].outcome@);
    }
    assert forall|i: int| 0 <= i < run.n implies #[trigger] r.final_energies@[i]
        == runs[i].outcome@.final_energy by {
        assert(outs[i] == runs[i].outcome@);
    }
    assert forall|k: int, b: int|
        0 <= k < t.score_kinds@.len() && 0 <= b
            < r.tally_outputs@[k]@.len() implies is_decoded_sum(
        decode,
        k as usize,
        total_at(scored(runs), t.out_offsets@[k] + b),
        #[trigger] r.tally_outputs@[k]@[b],
    ) by {
        let slot = t.out_offsets@[k] + b;
        let out = r.tally_outputs@[k]@;
        assert(decoded(
            decode,
            k as usize,
            words,
            t.out_offsets@[k] as int,
            t.out_offsets@[k + 1] as int,
            out,
        ));
        assert(t.out_offsets@[k] <= t.out_offsets@[k + 1]);
        accumulation_is_a_sum(zero_words(run.total()), ds, slot);
        let word = signed(words[slot]) as i64;
        assert(call_ensures(decode, (k as usize, word), out[b]));
        let sum = total_at(ds, slot);
        assert(words[slot] == sum % 0x1_0000_0000_0000_0000);
        assert((sum - word) % 0x1_0000_0000_0000_0000 == 0);
    }
}

proof fn lemma_joined_in_range(parts: Seq<Seq<Deposit>>, total: nat)
    requires
        forall|i: int| 0 <= i < parts.len() ==> in_range(#[trigger] parts[i], total),
    ensures
        in_range(joined(parts), total),
    decreases parts.len(),
{
    if parts.len() > 0 {
        let rest = parts.drop_last();
        assert forall|i: int| 0 <= i < rest.len() implies in_range(#[trigger] rest[i], total) by {
            assert(rest[i] == parts[i]);
        }
        lemma_joined_in_range(rest, total);
        let all = joined(parts);
        let last = parts[parts.len() - 1];
        assert(in_range(last, total));
        assert forall|i: int| 0 <= i < all.len() implies (#[trigger] all[i]).slot < total by {
            if i < joined(rest).len() {
                assert(all[i] == joined(rest)[i]);
            } else {
                assert(all[i] == last[i - joined(rest).len()]);
            }
        }
    }
}

/// A serial run tells its histories, with a trace of each where traces are captured
/// and no trace otherwise.
pub proof fn a_serial_run_tells_its_histories<
    H: Fn(usize) -> HistoryRun,
    D: Fn(usize, i64) -> Real,
>(
    run: &HostRun,
    history: &H,
    decode: D,
    capture_trace: bool,
    r: Result<(MultiCellResult, Vec<Vec<CollisionRecord>>), LayoutError>,
)
    requires
        run.wf(),
        can_run(history, run.n as int, run.total()),
        forall|t: usize, w: i64| call_requires(decode, (t, w)),
        call_ensures(
            run_multi_cell_transport_cpu::<H, D>,
            (run, history, decode, capture_trace),
            r,
        ),
        r is Ok,
    ensures
        exists|runs: Seq<HistoryRun>|
            {
                &&& #[trigger] tells_its_histories(r->Ok_0.0, *run, *history, decode, runs)
                &&& !capture_trace ==> r->Ok_0.1@.len() == 0
                &&& capture_trace ==> r->Ok_0.1@.len() == run.n
                &&& forall|i: int|
                    0 <= i < r->Ok_0.1@.len() ==> (#[trigger] r->Ok_0.1@[i])@ == runs[i].trace@
            },
{
    let runs = choose|runs: Seq<HistoryRun>| #[trigger]
        reports_run(r->Ok_0.0, *run, *history, runs, decode) && are_traces(
            r->Ok_0.1@,
            runs,
            capture_trace,
        );
    lemma_tells(r->Ok_0.0, *run, *history, decode, runs);
}

/// A parallel run tells its histories in the same way.
pub proof fn a_parallel_run_tells_its_histories<
    H: Fn(usize) -> HistoryRun + Sync,
    D: Fn(usize, i64) -> Real,
>(run: &HostRun, history: &H, decode: D, r: Result<MultiCellResult, LayoutError>)
    requires
        run.wf(),
        can_run(history, run.n as int, run.total()),
        forall|t: usize, w: i64| call_requires(decode, (t, w)),
        call_ensures(run_multi_cell_transport_cpu_rayon::<H, D>, (run, history, decode), r),
        r is Ok,
    ensures
        exists|runs: Seq<HistoryRun>| #[trigger]
            tells_its_histories(r->Ok_0, *run, *history, decode, runs),
{
    let runs = choose|runs: Seq<HistoryRun>| #[trigger]
        reports_run(r->Ok_0, *run, *history, runs, decode);
    lemma_tells(r->Ok_0, *run, *history, decode, runs);
}

} // verus!
