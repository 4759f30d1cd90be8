//! What two runs on the host have in common.
//!
//! A run reports the histories of its particles and nothing else: how they were
//! cut into chunks, whether they were traced and in how many runs they were
//! transported leaves no mark on the result.
use crate::drivers::{alive_of, energies_of, lemma_log_append, steps_of};
use crate::history::CollisionRecord;
use crate::ieee::Real;
use crate::result::MultiCellResult;
use crate::run::{
    are_runs, are_traces, can_run, deposits_of, lemma_scored_append, lemma_scored_in_range,
    outcomes_of, reports_run, scored, words_of, zero_words, HistoryRun, HostRun,
};
use crate::tally::decoded;
use crate::words::{chunks_merge_to_the_serial_tally, merged};
use vstd::prelude::*;

verus! {

/// Both runs of a particle end alike and score alike. Their traces may differ.
pub open spec fn same_run(a: HistoryRun, b: HistoryRun) -> bool {
    a.outcome@ == b.outcome@ && a.deposits@ == b.deposits@
}

/// Whatever `a` and `b` give for one particle ends alike and scores alike. Of a
/// function with itself: it gives one result.
pub open spec fn agree<A: Fn(usize) -> HistoryRun, B: Fn(usize) -> HistoryRun>(a: A, b: B) -> bool {
    forall|i: usize, x: HistoryRun, y: HistoryRun|
        #![trigger call_ensures(a, (i,), x), call_ensures(b, (i,), y)]
        call_ensures(a, (i,), x) && call_ensures(b, (i,), y) ==> same_run(x, y)
}

/// `decode` gives one number for each word.
pub open spec fn is_function<D: Fn(usize, i64) -> Real>(decode: D) -> bool {
    forall|t: usize, w: i64, x: Real, y: Real|
        #![trigger call_ensures(decode, (t, w), x), call_ensures(decode, (t, w), y)]
        call_ensures(decode, (t, w), x) && call_ensures(decode, (t, w), y) ==> x == y
}

/// Both results are the same, in every field.
pub open spec fn same_result(a: MultiCellResult, b: MultiCellResult) -> bool {
    &&& a.alive@ == b.alive@
    &&& a.n_steps@ == b.n_steps@
    &&& a.final_energies@ == b.final_energies@
    &&& a.tally_outputs@.len() == b.tally_outputs@.len()
    &&& forall|k: int|
        0 <= k < a.tally_outputs@.len() ==> (#[trigger] a.tally_outputs@[k])@
            == b.tally_outputs@[k]@
    &&& a.tally_sum_sq@ == b.tally_sum_sq@
    &&& a.src_acc@ == b.src_acc@
    &&& a.bank_source_idx@ == b.bank_source_idx@
    &&& a.n_bins_per_tally@ == b.n_bins_per_tally@
    &&& a.n_cells == b.n_cells
    &&& a.photon_bank.count == b.photon_bank.count
    &&& a.photon_bank.overflow == b.photon_bank.overflow
    &&& a.photon_bank.bank_f64@ == b.photon_bank.bank_f64@
    &&& a.photon_bank.bank_u32@ == b.photon_bank.bank_u32@
    &&& a.lost.count == b.lost.count
    &&& a.lost.records@ == b.lost.records@
    &&& a.n_spilled_secondaries == b.n_spilled_secondaries
    &&& a.max_pend_depth == b.max_pend_depth
    &&& a.pend_depth_hist@ == b.pend_depth_hist@
}

/// Runs that end alike and score alike, one by one, have the same outcomes and
/// the same scores.
proof fn lemma_same_runs(a: Seq<HistoryRun>, b: Seq<HistoryRun>)
    requires
        a.len() == b.len(),
        forall|i: int| 0 <= i < a.len() ==> same_run(#[trigger] a[i], b[i]),
    ensures
        outcomes_of(a) == outcomes_of(b),
        scored(a) == scored(b),
{
    assert(outcomes_of(a) =~= outcomes_of(b)) by {
        assert forall|i: int| 0 <= i < a.len() implies outcomes_of(a)[i] == outcomes_of(b)[i] by {
            assert(same_run(a[i], b[i]));
        }
    }
    assert(deposits_of(a) =~= deposits_of(b)) by {
        assert forall|i: int| 0 <= i < a.len() implies deposits_of(a)[i] == deposits_of(b)[i] by {
            assert(same_run(a[i], b[i]));
        }
    }
}

/// Two runs over the same particles, of histories that agree, report the same.
proof fn lemma_same_report<
    A: Fn(usize) -> HistoryRun,
    B: Fn(usize) -> HistoryRun,
    D: Fn(usize, i64) -> Real,
>(
    run: HostRun,
    a: A,
    b: B,
    decode: D,
    ra: MultiCellResult,
    rb: MultiCellResult,
    runs_a: Seq<HistoryRun>,
    runs_b: Seq<HistoryRun>,
)
    requires
        agree(a, b),
        is_function(decode),
        reports_run(ra, run, a, runs_a, decode),
        reports_run(rb, run, b, runs_b, decode),
    ensures
        same_result(ra, rb),
{
    assert forall|i: int| 0 <= i < runs_a.len() implies same_run(
        #[trigger] runs_a[i],
        runs_b[i],
    ) by {
        assert(call_ensures(a, ((0 + i) as usize,), runs_a[i]));
        assert(call_ensures(b, ((0 + i) as usize,), runs_b[i]));
    }
    lemma_same_runs(runs_a, runs_b);
    assert forall|k: int| 0 <= k < ra.tally_outputs@.len() implies (#[trigger] ra.tally_outputs@[k])@
        == rb.tally_outputs@[k]@ by {
        let x = ra.tally_outputs@[k]@;
        let y = rb.tally_outputs@[k]@;
        let words = words_of(run, runs_a);
        let start = run.tallies.out_offsets@[k] as int;
        let end = run.tallies.out_offsets@[k + 1] as int;
        assert(decoded(decode, k as usize, words, start, end, x));
        assert(decoded(decode, k as usize, words, start, end, y));
        assert(x =~= y);
    }
    assert(ra.tally_sum_sq@ =~= rb.tally_sum_sq@);
    assert(ra.src_acc@ =~= rb.src_acc@);
    assert(ra.bank_source_idx@ =~= rb.bank_source_idx@);
    assert(ra.photon_bank.bank_f64@ =~= rb.photon_bank.bank_f64@);
    assert(ra.photon_bank.bank_u32@ =~= rb.photon_bank.bank_u32@);
    assert(ra.pend_depth_hist@ =~= rb.pend_depth_hist@);
}

/// The parallel run gives what the serial run gives, for any number of
/// particles: each reports the histories that `history` gives for them, and
/// where that is one result for each, the two reports are the same.
pub proof fn parallel_and_serial_runs_report_the_same<
    H: Fn(usize) -> HistoryRun,
    D: Fn(usize, i64) -> Real,
>(run: HostRun, history: H, decode: D, serial: MultiCellResult, parallel: MultiCellResult)
    requires
        agree(history, history),
        is_function(decode),
        exists|runs: Seq<HistoryRun>| #[trigger]
            reports_run(serial, run, history, runs, decode),
        exists|runs: Seq<HistoryRun>| #[trigger]
            reports_run(parallel, run, history, runs, decode),
    ensures
        same_result(serial, parallel),
{
    let a = choose|runs: Seq<HistoryRun>| #[trigger]
        reports_run(serial, run, history, runs, decode);
    let b = choose|runs: Seq<HistoryRun>| #[trigger]
        reports_run(parallel, run, history, runs, decode);
    lemma_same_report(run, history, history, decode, serial, parallel, a, b);
}

/// Capturing traces changes nothing but the traces: a traced run and one that is
/// not, of histories that end and score alike, report the same. The first has a
/// trace for each particle, the other has none.
pub proof fn capture_changes_only_the_traces<
    A: Fn(usize) -> HistoryRun,
    B: Fn(usize) -> HistoryRun,
    D: Fn(usize, i64) -> Real,
>(
    run: HostRun,
    traced: A,
    plain: B,
    decode: D,
    a: (MultiCellResult, Vec<Vec<CollisionRecord>>),
    b: (MultiCellResult, Vec<Vec<CollisionRecord>>),
)
    requires
        agree(traced, plain),
        is_function(decode),
        exists|runs: Seq<HistoryRun>| #[trigger]
            reports_run(a.0, run, traced, runs, decode) && are_traces(a.1@, runs, true),
        exists|runs: Seq<HistoryRun>| #[trigger]
            reports_run(b.0, run, plain, runs, decode) && are_traces(b.1@, runs, false),
    ensures
        same_result(a.0, b.0),
        a.1@.len() == run.n,
        b.1@.len() == 0,
{
    let x = choose|runs: Seq<HistoryRun>| #[trigger]
        reports_run(a.0, run, traced, runs, decode) && are_traces(a.1@, runs, true);
    let y = choose|runs: Seq<HistoryRun>| #[trigger]
        reports_run(b.0, run, plain, runs, decode) && are_traces(b.1@, runs, false);
    lemma_same_report(run, traced, plain, decode, a.0, b.0, x, y);
}

/// `whole` gives for the first `n` particles what `a` gives for them, and for
/// those behind them what `b` gives, counted from its own first.
pub open spec fn follows<
    W: Fn(usize) -> HistoryRun,
    A: Fn(usize) -> HistoryRun,
    B: Fn(usize) -> HistoryRun,
>(whole: W, a: A, n: int, b: B) -> bool {
    &&& forall|i: usize, x: HistoryRun, y: HistoryRun|
        #![trigger call_ensures(whole, (i,), x), call_ensures(a, (i,), y)]
        i < n && call_ensures(whole, (i,), x) && call_ensures(a, (i,), y) ==> same_run(x, y)
    &&& forall|i: usize, j: usize, x: HistoryRun, y: HistoryRun|
        #![trigger call_ensures(whole, (i,), x), call_ensures(b, (j,), y)]
        i == n + j && call_ensures(whole, (i,), x) && call_ensures(b, (j,), y) ==> same_run(x, y)
}

/// The result of a run that transports the particles of two runs one after the
/// other: their particles side by side, their losses and spills together, the
/// deeper of their pending stacks, and tallies decoded from their words added
/// up.
pub open spec fn is_sum_of<D: Fn(usize, i64) -> Real>(
    whole: MultiCellResult,
    a: MultiCellResult,
    b: MultiCellResult,
    run: HostRun,
    words_a: Seq<u64>,
    words_b: Seq<u64>,
    decode: D,
) -> bool {
    let t = *run.tallies;
    &&& whole.alive@ == a.alive@ + b.alive@
    &&& whole.n_steps@ == a.n_steps@ + b.n_steps@
    &&& whole.final_energies@ == a.final_energies@ + b.final_energies@
    &&& whole.lost.count == a.lost.count + b.lost.count
    &&& whole.n_spilled_secondaries == a.n_spilled_secondaries + b.n_spilled_secondaries
    &&& whole.max_pend_depth == if b.max_pend_depth > a.max_pend_depth {
        b.max_pend_depth
    } else {
        a.max_pend_depth
    }
    &&& whole.tally_outputs@.len() == t.n()
    &&& forall|k: int|
        0 <= k < t.n() ==> decoded(
            decode,
            k as usize,
            merged(words_a, words_b),
            t.out_offsets@[k] as int,
            t.out_offsets@[k + 1] as int,
            (#[trigger] whole.tally_outputs@[k])@,
        )
}

/// Transporting the particles of `a` and behind them those of `b` in one run
/// gives the two runs added up.
pub proof fn a_run_is_the_sum_of_its_parts<
    W: Fn(usize) -> HistoryRun,
    A: Fn(usize) -> HistoryRun,
    B: Fn(usize) -> HistoryRun,
    D: Fn(usize, i64) -> Real,
>(
    whole: HostRun,
    a: HostRun,
    b: HostRun,
    of_whole: W,
    of_a: A,
    of_b: B,
    decode: D,
    r: MultiCellResult,
    ra: MultiCellResult,
    rb: MultiCellResult,
)
    requires
        whole.n == a.n + b.n,
        *whole.tallies == *a.tallies,
        *whole.tallies == *b.tallies,
        can_run(&of_whole, whole.n as int, whole.total()),
        follows(of_whole, of_a, a.n as int, of_b),
        exists|runs: Seq<HistoryRun>| #[trigger] reports_run(r, whole, of_whole, runs, decode),
        exists|runs: Seq<HistoryRun>| #[trigger] reports_run(ra, a, of_a, runs, decode),
        exists|runs: Seq<HistoryRun>| #[trigger] reports_run(rb, b, of_b, runs, decode),
    ensures
        exists|runs_a: Seq<HistoryRun>, runs_b: Seq<HistoryRun>|
            #[trigger] reports_run(ra, a, of_a, runs_a, decode) && #[trigger] reports_run(
                rb,
                b,
                of_b,
                runs_b,
                decode,
            )
                && is_sum_of(r, ra, rb, whole, words_of(a, runs_a), words_of(b, runs_b), decode),
{
    let runs = choose|runs: Seq<HistoryRun>| #[trigger]
        reports_run(r, whole, of_whole, runs, decode);
    let runs_a = choose|runs: Seq<HistoryRun>| #[trigger] reports_run(ra, a, of_a, runs, decode);
    let runs_b = choose|runs: Seq<HistoryRun>| #[trigger] reports_run(rb, b, of_b, runs, decode);
    let n = a.n as int;
    let first = runs.take(n);
    let second = runs.skip(n);
    assert(first + second =~= runs);
    assert forall|i: int| 0 <= i < first.len() implies same_run(#[trigger] first[i], runs_a[i]) by {
        assert(call_ensures(of_whole, ((0 + i) as usize,), runs[i]));
        assert(call_ensures(of_a, ((0 + i) as usize,), runs_a[i]));
    }
    assert forall|i: int| 0 <= i < second.len() implies same_run(
        #[trigger] second[i],
        runs_b[i],
    ) by {
        assert(call_ensures(of_whole, ((0 + (n + i)) as usize,), runs[n + i]));
        assert(call_ensures(of_b, ((0 + i) as usize,), runs_b[i]));
    }
    lemma_same_runs(first, runs_a);
    lemma_same_runs(second, runs_b);
    lemma_scored_append(first, second);
    let oa = outcomes_of(runs_a);
    let ob = outcomes_of(runs_b);
    assert(outcomes_of(runs) =~= oa + ob) by {
        assert(outcomes_of(runs) =~= outcomes_of(first) + outcomes_of(second));
    }
    lemma_log_append(oa, ob);
    assert(alive_of(oa + ob) =~= alive_of(oa) + alive_of(ob));
    assert(steps_of(oa + ob) =~= steps_of(oa) + steps_of(ob));
    assert(energies_of(oa + ob) =~= energies_of(oa) + energies_of(ob));
    let total = whole.total();
    assert forall|i: int| 0 <= i < first.len() implies call_ensures(
        of_whole,
        ((0 + i) as usize,),
        #[trigger] first[i],
    ) by {
        assert(first[i] == runs[i]);
    }
    assert forall|i: int| 0 <= i < second.len() implies call_ensures(
        of_whole,
        ((n + i) as usize,),
        #[trigger] second[i],
    ) by {
        assert(second[i] == runs[n + i]);
    }
    assert(are_runs(of_whole, 0, first));
    assert(are_runs(of_whole, n, second));
    lemma_scored_in_range(of_whole, 0, first, total);
    lemma_scored_in_range(of_whole, n, second, total);
    chunks_merge_to_the_serial_tally(
        zero_words(total),
        zero_words(total),
        scored(first),
        scored(second),
    );
    assert(words_of(whole, runs) == merged(words_of(a, runs_a), words_of(b, runs_b)));
    assert(is_sum_of(r, ra, rb, whole, words_of(a, runs_a), words_of(b, runs_b), decode));
}

} // verus!
