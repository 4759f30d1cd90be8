//! Sizes of a launch's output buffers, and what is read back from them.
use crate::bank::{bank_slots, count_nxn_spills, nxn_spills, LostParticleResult};
use crate::history::LostParticleRecord;
use crate::ieee::Real;
use crate::layout::{BANK_U32_STRIDE, WORKGROUP_SIZE};
use crate::pack::{at_least_one, copied, filled};
use crate::photon::PhotonBankResult;
use crate::result::MultiCellResult;
use crate::spill::{per_history_spill_cap, spill_cap};
use crate::tally::{decoded, unpack_tally_outputs, unpack_tally_sum_sq};
use vstd::prelude::*;

verus! {

/// How a launch estimates the variance of its tallies.
pub enum TallyVarianceMode {
    /// Every step adds to the tallies; no variance.
    PerStep,
    /// Every history adds its totals and their squares.
    PerHistory,
    /// Every history adds its totals to the row of its source particle.
    PerSource { chunk_sources: u32, total_bins: u32, source_idx: Option<Vec<u32>> },
    /// Every step adds to the row of its source particle.
    PerSourceDirect { chunk_sources: u32, total_bins: u32, source_idx: Option<Vec<u32>> },
}

impl TallyVarianceMode {
    pub open spec fn is_source(self) -> bool {
        self is PerSource || self is PerSourceDirect
    }

    pub open spec fn sources(self) -> nat {
        match self {
            TallyVarianceMode::PerSource { chunk_sources, .. } => chunk_sources as nat,
            TallyVarianceMode::PerSourceDirect { chunk_sources, .. } => chunk_sources as nat,
            _ => 0,
        }
    }

    pub open spec fn bins(self) -> nat {
        match self {
            TallyVarianceMode::PerSource { total_bins, .. } => total_bins as nat,
            TallyVarianceMode::PerSourceDirect { total_bins, .. } => total_bins as nat,
            _ => 0,
        }
    }

    /// Source indices given to the launch.
    pub open spec fn given(self) -> Option<Vec<u32>> {
        match self {
            TallyVarianceMode::PerSource { source_idx, .. } => source_idx,
            TallyVarianceMode::PerSourceDirect { source_idx, .. } => source_idx,
            _ => None,
        }
    }

    /// A history gathers its totals before it adds them.
    pub fn per_history(&self) -> (r: bool)
        ensures
            r == !(self is PerStep),
    {
        !matches!(self, TallyVarianceMode::PerStep)
    }

    /// Totals go to the rows of the source particles.
    pub fn per_source(&self) -> (r: bool)
        ensures
            r == self.is_source(),
    {
        match self {
            TallyVarianceMode::PerSource { .. } => true,
            TallyVarianceMode::PerSourceDirect { .. } => true,
            _ => false,
        }
    }

    /// Steps add to the rows directly, without gathering.
    pub fn mesh_direct(&self) -> (r: bool)
        ensures
            r == self is PerSourceDirect,
    {
        matches!(self, TallyVarianceMode::PerSourceDirect { .. })
    }

    /// The tallies are in the per-source rows.
    pub fn uses_src_acc(&self) -> (r: bool)
        ensures
            r == self.is_source(),
    {
        self.per_source()
    }

    /// Length of a source particle's row.
    pub fn total_bins(&self) -> (r: u32)
        ensures
            r == self.bins(),
    {
        match self {
            TallyVarianceMode::PerSource { total_bins, .. } => *total_bins,
            TallyVarianceMode::PerSourceDirect { total_bins, .. } => *total_bins,
            _ => 0,
        }
    }
}

/// A product, or the largest `usize` where it does not fit.
pub open spec fn clamped_product(a: nat, b: nat) -> nat {
    if a * b <= usize::MAX {
        a * b
    } else {
        usize::MAX as nat
    }
}

pub open spec fn or_one(n: nat) -> nat {
    if n == 0 {
        1
    } else {
        n
    }
}

fn product(a: usize, b: usize) -> (r: usize)
    ensures
        r == clamped_product(a as nat, b as nat),
{
    match a.checked_mul(b) {
        Some(p) => p,
        None => usize::MAX,
    }
}

/// Sizes of the buffers that a launch of `n` particles writes.
pub struct LaunchPlan {
    /// Spill entries of each history.
    pub spill_cap: usize,
    /// Words of the tally accumulator.
    pub tally_len: usize,
    /// Entries of the spill buffers.
    pub spill_len: usize,
    /// Words of the per-source accumulator.
    pub src_acc_len: usize,
    /// Source particle of each launched one.
    pub source_idx: Vec<u32>,
    /// Workgroups to launch.
    pub groups: u32,
    /// Slots of the particle bank.
    pub bank_slots: usize,
}

/// Spill entries per history: none where steps add directly.
pub open spec fn planned_spill_cap(
    mode: TallyVarianceMode,
    total_out_len: nat,
    max_steps: nat,
    n_tallies: nat,
) -> nat {
    if mode is PerSourceDirect {
        0
    } else {
        spill_cap(total_out_len, max_steps, n_tallies)
    }
}

/// Words of the tally accumulator: sums and squares per history, sums per step,
/// and one unused word where the per-source rows take its place.
pub open spec fn planned_tally_len(mode: TallyVarianceMode, total_out_len: nat) -> nat {
    or_one(
        if mode is PerHistory {
            total_out_len * 2
        } else if mode is PerStep {
            total_out_len
        } else {
            1
        },
    )
}

/// Entries of the spill buffers: each history owns its own.
pub open spec fn planned_spill_len(mode: TallyVarianceMode, n: nat, cap: nat) -> nat {
    if mode is PerStep {
        1
    } else {
        or_one(clamped_product(n, cap))
    }
}

/// Words of the per-source accumulator: a row per source particle.
pub open spec fn planned_src_acc_len(mode: TallyVarianceMode) -> nat {
    if mode.is_source() {
        or_one(clamped_product(mode.sources(), mode.bins()))
    } else {
        1
    }
}

/// Source particle of each launched one: those given, or each its own.
pub open spec fn planned_source_idx(mode: TallyVarianceMode, n: nat) -> Seq<u32> {
    if mode.is_source() {
        match mode.given() {
            Some(given) => given@,
            None => Seq::new(n, |i: int| i as u32),
        }
    } else {
        seq![0u32]
    }
}

fn identity(n: usize) -> (r: Vec<u32>)
    requires
        n <= u32::MAX,
    ensures
        r@ == Seq::new(n as nat, |i: int| i as u32),
{
    let mut r: Vec<u32> = Vec::new();
    let mut i: u32 = 0;
    while i < n as u32
        invariant
            i <= n <= u32::MAX,
            r@ == Seq::new(i as nat, |i: int| i as u32),
        decreases n - i,
    {
        r.push(i);
        i = i + 1;
        assert(r@ =~= Seq::new(i as nat, |i: int| i as u32));
    }
    r
}

/// Plans the buffers of a launch.
pub fn plan_launch(
    mode: &TallyVarianceMode,
    n: usize,
    total_out_len: usize,
    max_steps: u32,
    n_tallies: usize,
    bank_capacity: usize,
) -> (r: LaunchPlan)
    requires
        n <= u32::MAX,
        total_out_len * 2 <= usize::MAX,
    ensures
        r.spill_cap == planned_spill_cap(
            *mode,
            total_out_len as nat,
            max_steps as nat,
            n_tallies as nat,
        ),
        r.tally_len == planned_tally_len(*mode, total_out_len as nat),
        r.spill_len == planned_spill_len(*mode, n as nat, r.spill_cap as nat),
        r.src_acc_len == planned_src_acc_len(*mode),
        r.source_idx@ == planned_source_idx(*mode, n as nat),
        r.groups == (n + WORKGROUP_SIZE - 1) / WORKGROUP_SIZE as int,
        r.bank_slots == or_one(bank_capacity as nat),
{
    let cap: usize = if mode.mesh_direct() {
        0
    } else {
        per_history_spill_cap(total_out_len, max_steps, n_tallies)
    };
    let tally_len: usize = match mode {
        TallyVarianceMode::PerHistory => total_out_len * 2,
        TallyVarianceMode::PerStep => total_out_len,
        _ => 1,
    };
    let spill_len: usize = if mode.per_history() {
        at_least_one(product(n, cap))
    } else {
        1
    };
    let src_acc_len: usize = match mode {
        TallyVarianceMode::PerSource { chunk_sources, total_bins, .. } => at_least_one(
            product(*chunk_sources as usize, *total_bins as usize),
        ),
        TallyVarianceMode::PerSourceDirect { chunk_sources, total_bins, .. } => at_least_one(
            product(*chunk_sources as usize, *total_bins as usize),
        ),
        _ => 1,
    };
    let source_idx: Vec<u32> = match mode {
        TallyVarianceMode::PerSource { source_idx: Some(given), .. } => copied(given.as_slice()),
        TallyVarianceMode::PerSourceDirect { source_idx: Some(given), .. } => copied(
            given.as_slice(),
        ),
        TallyVarianceMode::PerSource { source_idx: None, .. } => identity(n),
        TallyVarianceMode::PerSourceDirect { source_idx: None, .. } => identity(n),
        _ => filled(1, 0u32),
    };
    assert(WORKGROUP_SIZE == 64);
    let groups: u32 = ((n as u64 + 63) / 64) as u32;
    LaunchPlan {
        spill_cap: cap,
        tally_len: at_least_one(tally_len),
        spill_len,
        src_acc_len,
        source_idx,
        groups,
        bank_slots: bank_slots(bank_capacity),
    }
}

/// The launched workgroups have a thread for every particle, and each of them
/// has work.
pub proof fn every_particle_has_a_thread(n: nat)
    ensures
        ({
            let groups = (n + WORKGROUP_SIZE - 1) / WORKGROUP_SIZE as int;
            &&& n <= groups * WORKGROUP_SIZE
            &&& forall|g: int| 0 <= g < groups ==> #[trigger] (g * WORKGROUP_SIZE) < n
        }),
{
    let groups = (n + 63) / 64;
    assert(n <= groups * 64 && groups * 64 <= n + 63);
    assert forall|g: int| 0 <= g < groups implies #[trigger] (g * WORKGROUP_SIZE) < n by {
        assert(g * 64 <= (groups - 1) * 64);
    }
}

/// The spill entries of a history lie in the buffer, and no two histories share
/// one.
pub proof fn histories_own_their_spill(
    mode: TallyVarianceMode,
    n: nat,
    cap: nat,
    a: int,
    b: int,
    i: int,
    j: int,
)
    requires
        mode !is PerStep,
        n * cap <= usize::MAX,
        0 <= a < n,
        0 <= b < n,
        0 <= i < cap,
        0 <= j < cap,
    ensures
        a * cap + i < planned_spill_len(mode, n, cap),
        a * cap + i == b * cap + j ==> a == b && i == j,
{
    assert(a * cap + i < n * cap) by (nonlinear_arith)
        requires
            0 <= a,
            a + 1 <= n,
            0 <= i < cap,
    ;
    if a * cap + i == b * cap + j {
        assert(a == b) by (nonlinear_arith)
            requires
                a * cap + i == b * cap + j,
                0 <= i < cap,
                0 <= j < cap,
        ;
    }
}

/// A bin of a source particle's row lies in the accumulator, and no two source
/// particles share one.
pub proof fn sources_own_their_rows(
    mode: TallyVarianceMode,
    a: int,
    b: int,
    i: int,
    j: int,
)
    requires
        mode.is_source(),
        mode.sources() * mode.bins() <= usize::MAX,
        0 <= a < mode.sources(),
        0 <= b < mode.sources(),
        0 <= i < mode.bins(),
        0 <= j < mode.bins(),
    ensures
        a * mode.bins() + i < planned_src_acc_len(mode),
        a * mode.bins() + i == b * mode.bins() + j ==> a == b && i == j,
{
    let n = mode.sources() as int;
    let w = mode.bins() as int;
    assert(a * w + i < n * w) by (nonlinear_arith)
        requires
            0 <= a,
            a + 1 <= n,
            0 <= i < w,
    ;
    if a * w + i == b * w + j {
        assert(a == b) by (nonlinear_arith)
            requires
                a * w + i == b * w + j,
                0 <= i < w,
                0 <= j < w,
        ;
    }
}

/// Tallies read back from a launch.
pub struct TallyReadback {
    pub outputs: Vec<Vec<Real>>,
    pub sum_sq: Vec<Vec<Real>>,
    pub src_acc: Vec<u64>,
}

/// Takes the tallies out of the words read back: the per-source rows as they
/// are, or the decoded sums with, per history, the decoded squares behind them.
pub fn read_tallies<F: Fn(usize, i64) -> Real, G: Fn(usize, i64) -> Real>(
    mode: &TallyVarianceMode,
    words: Vec<u64>,
    out_offsets: &[u32],
    n_tallies: usize,
    decode: F,
    decode_sq: G,
) -> (r: TallyReadback)
    requires
        n_tallies < out_offsets.len(),
        forall|t: int|
            0 <= t < n_tallies ==> #[trigger] out_offsets@[t] <= out_offsets@[t + 1]
                && out_offsets@[t + 1] <= out_offsets@[n_tallies as int],
        !mode.is_source() ==> words@.len() == planned_tally_len(
            *mode,
            out_offsets@[n_tallies as int] as nat,
        ),
        forall|t: usize, w: i64| call_requires(decode, (t, w)),
        forall|t: usize, w: i64| call_requires(decode_sq, (t, w)),
    ensures
        mode.is_source() ==> r.src_acc@ == words@ && r.outputs@.len() == 0 && r.sum_sq@.len() == 0,
        !mode.is_source() ==> {
            &&& r.src_acc@.len() == 0
            &&& r.outputs@.len() == n_tallies
            &&& forall|t: int|
                0 <= t < n_tallies ==> decoded(
                    decode,
                    t as usize,
                    words@,
                    out_offsets@[t] as int,
                    out_offsets@[t + 1] as int,
                    (#[trigger] r.outputs@[t])@,
                )
            &&& mode is PerStep ==> r.sum_sq@.len() == 0
            &&& mode is PerHistory ==> r.sum_sq@.len() == n_tallies && forall|t: int|
                0 <= t < n_tallies ==> decoded(
                    decode_sq,
                    t as usize,
                    words@,
                    out_offsets@[n_tallies as int] + out_offsets@[t],
                    out_offsets@[n_tallies as int] + out_offsets@[t + 1],
                    (#[trigger] r.sum_sq@[t])@,
                )
        },
{
    if mode.uses_src_acc() {
        return TallyReadback { outputs: Vec::new(), sum_sq: Vec::new(), src_acc: words };
    }
    let total: usize = out_offsets[n_tallies] as usize;
    let outputs = unpack_tally_outputs(words.as_slice(), out_offsets, n_tallies, decode);
    let sum_sq = if mode.per_history() {
        unpack_tally_sum_sq(words.as_slice(), total, out_offsets, n_tallies, decode_sq)
    } else {
        Vec::new()
    };
    TallyReadback { outputs, sum_sq, src_acc: Vec::new() }
}

/// Records were lost because the particle bank was full.
#[derive(Clone, Copy, Debug, PartialEq, Eq, Structural)]
pub struct BankOverflow {
    pub overflow: u64,
    pub count: u64,
}

/// Takes the particle bank read back from a launch. An overflow is an error: no
/// record is dropped unseen. Without any record the words are left out.
pub fn read_bank(count: u64, overflow: u64, bank_f64: Vec<Real>, bank_u32: Vec<u32>) -> (r: Result<
    PhotonBankResult,
    BankOverflow,
>)
    ensures
        overflow > 0 ==> r == Result::<PhotonBankResult, BankOverflow>::Err(
            (BankOverflow { overflow, count }),
        ),
        overflow == 0 ==> r is Ok && r->Ok_0.count == count && r->Ok_0.overflow == 0,
        overflow == 0 && count == 0 ==> r->Ok_0.bank_f64@.len() == 0 && r->Ok_0.bank_u32@.len()
            == 0,
        overflow == 0 && count > 0 ==> r->Ok_0.bank_f64 == bank_f64 && r->Ok_0.bank_u32 == bank_u32,
{
    if overflow != 0 {
        return Err(BankOverflow { overflow, count });
    }
    if count == 0 {
        Ok(PhotonBankResult { count, overflow, bank_f64: Vec::new(), bank_u32: Vec::new() })
    } else {
        Ok(PhotonBankResult { count, overflow, bank_f64, bank_u32 })
    }
}

/// What a launch reports of each particle.
pub struct ParticleReadback {
    pub alive: Vec<u32>,
    pub n_steps: Vec<u32>,
    pub final_energies: Vec<Real>,
}

/// Puts the parts read back from a launch together. Source indices of banked
/// records are kept where the tallies are per source and there are records;
/// the spilled secondaries are counted among the records.
pub fn launch_result(
    mode: &TallyVarianceMode,
    particles: ParticleReadback,
    tallies: TallyReadback,
    n_bins_per_tally: &[u32],
    n_cells: usize,
    photon_bank: PhotonBankResult,
    bank_source_idx: Vec<u32>,
    lost: LostParticleResult<LostParticleRecord>,
    ptype_neutron: u32,
) -> (r: MultiCellResult)
    ensures
        r.alive == particles.alive,
        r.n_steps == particles.n_steps,
        r.final_energies == particles.final_energies,
        r.tally_outputs == tallies.outputs,
        r.tally_sum_sq == tallies.sum_sq,
        r.src_acc == tallies.src_acc,
        r.bank_source_idx@ == if mode.is_source() && photon_bank.count > 0 {
            bank_source_idx@
        } else {
            Seq::empty()
        },
        r.n_bins_per_tally@ == n_bins_per_tally@,
        r.n_cells == n_cells,
        r.photon_bank == photon_bank,
        r.lost == lost,
        r.n_spilled_secondaries == nxn_spills(
            photon_bank.bank_u32@,
            ptype_neutron,
            if photon_bank.count < photon_bank.bank_u32@.len() / BANK_U32_STRIDE as nat {
                photon_bank.count as nat
            } else {
                photon_bank.bank_u32@.len() / BANK_U32_STRIDE as nat
            },
        ),
        r.max_pend_depth == 0,
        r.pend_depth_hist@.len() == 0,
{
    let n_spilled: u64 = count_nxn_spills(
        photon_bank.bank_u32.as_slice(),
        photon_bank.count,
        ptype_neutron,
    );
    let source_idx: Vec<u32> = if mode.uses_src_acc() && photon_bank.count > 0 {
        bank_source_idx
    } else {
        Vec::new()
    };
    MultiCellResult {
        alive: particles.alive,
        n_steps: particles.n_steps,
        final_energies: particles.final_energies,
        tally_outputs: tallies.outputs,
        tally_sum_sq: tallies.sum_sq,
        src_acc: tallies.src_acc,
        bank_source_idx: source_idx,
        n_bins_per_tally: copied(n_bins_per_tally),
        n_cells,
        photon_bank,
        lost,
        n_spilled_secondaries: n_spilled,
        max_pend_depth: 0,
        pend_depth_hist: Vec::new(),
    }
}

/// Only a run that scores step by step does without the list of a history; only the
/// two that score by source have rows, and only the last scores into them at once.
pub proof fn modes_tell_where_scores_go(
    mode: &TallyVarianceMode,
    per_history: bool,
    per_source: bool,
    mesh_direct: bool,
    uses_src_acc: bool,
    total_bins: u32,
)
    requires
        call_ensures(TallyVarianceMode::per_history, (mode,), per_history),
        call_ensures(TallyVarianceMode::per_source, (mode,), per_source),
        call_ensures(TallyVarianceMode::mesh_direct, (mode,), mesh_direct),
        call_ensures(TallyVarianceMode::uses_src_acc, (mode,), uses_src_acc),
        call_ensures(TallyVarianceMode::total_bins, (mode,), total_bins),
    ensures
        mode is PerStep ==> !per_history && !per_source && !mesh_direct && !uses_src_acc
            && total_bins == 0,
        mode is PerHistory ==> per_history && !per_source && !mesh_direct && !uses_src_acc
            && total_bins == 0,
        mode is PerSource ==> per_history && per_source && !mesh_direct && uses_src_acc
            && total_bins == mode->PerSource_total_bins,
        mode is PerSourceDirect ==> per_history && per_source && mesh_direct && uses_src_acc
            && total_bins == mode->PerSourceDirect_total_bins,
{
}

/// A launch has room for what its mode writes: one word a bin for scores by step,
/// two for scores by history, one spill of its own for each history unless it
/// scores step by step, and one row of bins for each source where it scores by
/// source. No buffer is empty.
pub proof fn a_launch_has_room_for_what_it_writes(
    mode: &TallyVarianceMode,
    n: usize,
    total_out_len: usize,
    max_steps: u32,
    n_tallies: usize,
    bank_capacity: usize,
    r: LaunchPlan,
)
    requires
        n <= u32::MAX,
        total_out_len * 2 <= usize::MAX,
        call_ensures(
            plan_launch,
            (mode, n, total_out_len, max_steps, n_tallies, bank_capacity),
            r,
        ),
    ensures
        total_out_len > 0 && mode is PerStep ==> r.tally_len == total_out_len,
        total_out_len > 0 && mode is PerHistory ==> r.tally_len == 2 * total_out_len,
        total_out_len == 0 || mode is PerSource || mode is PerSourceDirect ==> r.tally_len == 1,
        mode is PerSourceDirect ==> r.spill_cap == 0,
        mode !is PerSourceDirect && r.spill_cap > 0 ==> r.spill_cap + 32 == total_out_len
            || r.spill_cap + 32 == max_steps * n_tallies,
        mode !is PerSourceDirect && r.spill_cap == 0 ==> total_out_len <= 32 || max_steps
            * n_tallies <= 32,
        r.spill_cap > 0 ==> r.spill_cap + 32 <= total_out_len && r.spill_cap + 32 <= max_steps
            * n_tallies,
        mode is PerStep ==> r.spill_len == 1,
        mode !is PerStep && 0 < n * r.spill_cap <= usize::MAX ==> r.spill_len == n * r.spill_cap,
        mode !is PerStep && n * r.spill_cap > usize::MAX ==> r.spill_len == usize::MAX,
        n * r.spill_cap == 0 ==> r.spill_len == 1,
        mode is PerStep || mode is PerHistory ==> r.src_acc_len == 1 && r.source_idx@ =~= seq![0u32],
        r.groups * 64 >= n && (r.groups - 1) * 64 < n,
        bank_capacity > 0 ==> r.bank_slots == bank_capacity,
        bank_capacity == 0 ==> r.bank_slots == 1,
{
}

/// Where scores go by source, there is a row of bins for each source of the chunk,
/// and a particle belongs to the source given for it or, where none is given, to
/// the source of its own number.
pub proof fn a_launch_by_source_has_its_rows(
    mode: &TallyVarianceMode,
    chunk_sources: u32,
    total_bins: u32,
    source_idx: Option<Vec<u32>>,
    n: usize,
    total_out_len: usize,
    max_steps: u32,
    n_tallies: usize,
    bank_capacity: usize,
    r: LaunchPlan,
)
    requires
        n <= u32::MAX,
        total_out_len * 2 <= usize::MAX,
        *mode == (TallyVarianceMode::PerSource { chunk_sources, total_bins, source_idx }) || *mode
            == (TallyVarianceMode::PerSourceDirect { chunk_sources, total_bins, source_idx }),
        call_ensures(
            plan_launch,
            (mode, n, total_out_len, max_steps, n_tallies, bank_capacity),
            r,
        ),
    ensures
        0 < chunk_sources * total_bins <= usize::MAX ==> r.src_acc_len == chunk_sources * total_bins,
        chunk_sources * total_bins > usize::MAX ==> r.src_acc_len == usize::MAX,
        chunk_sources * total_bins == 0 ==> r.src_acc_len == 1,
        source_idx matches Some(given) ==> r.source_idx@ == given@,
        source_idx is None ==> r.source_idx@.len() == n && forall|i: int|
            0 <= i < n ==> #[trigger] r.source_idx@[i] == i,
{
}

/// A bank that overflowed is refused with its two numbers; any other is handed on as
/// it was read, and as empty where nothing was banked.
pub proof fn an_overflowed_bank_is_refused(
    count: u64,
    overflow: u64,
    bank_f64: Vec<Real>,
    bank_u32: Vec<u32>,
    r: Result<PhotonBankResult, BankOverflow>,
)
    requires
        call_ensures(read_bank, (count, overflow, bank_f64, bank_u32), r),
    ensures
        r is Err <==> overflow > 0,
        r is Err ==> r->Err_0.overflow == overflow && r->Err_0.count == count,
        r is Ok ==> r->Ok_0.count == count && r->Ok_0.overflow == 0,
        r is Ok && count > 0 ==> r->Ok_0.bank_f64@ == bank_f64@ && r->Ok_0.bank_u32@ == bank_u32@,
        r is Ok && count == 0 ==> r->Ok_0.bank_f64@.len() == 0 && r->Ok_0.bank_u32@.len() == 0,
{
}

/// What a launch reports is what was read: particles, tallies, bank and losses as they
/// are, sources of banked particles where scores go by source and any was banked,
/// and no stack depths, which a launch does not keep.
pub proof fn a_launch_reports_what_was_read(
    mode: &TallyVarianceMode,
    particles: ParticleReadback,
    tallies: TallyReadback,
    n_bins_per_tally: &[u32],
    n_cells: usize,
    photon_bank: PhotonBankResult,
    bank_source_idx: Vec<u32>,
    lost: LostParticleResult<LostParticleRecord>,
    ptype_neutron: u32,
    r: MultiCellResult,
)
    requires
        call_ensures(
            launch_result,
            (
                mode,
                particles,
                tallies,
                n_bins_per_tally,
                n_cells,
                photon_bank,
                bank_source_idx,
                lost,
                ptype_neutron,
            ),
            r,
        ),
    ensures
        r.alive@ == particles.alive@ && r.n_steps@ == particles.n_steps@ && r.final_energies@
            == particles.final_energies@,
        r.tally_outputs == tallies.outputs && r.tally_sum_sq == tallies.sum_sq && r.src_acc
            == tallies.src_acc,
        r.n_bins_per_tally@ == n_bins_per_tally@ && r.n_cells == n_cells,
        r.photon_bank == photon_bank && r.lost == lost,
        (mode is PerSource || mode is PerSourceDirect) && photon_bank.count > 0
            ==> r.bank_source_idx@ == bank_source_idx@,
        mode is PerStep || mode is PerHistory || photon_bank.count == 0 ==> r.bank_source_idx@.len()
            == 0,
        4 * photon_bank.count <= photon_bank.bank_u32@.len() ==> r.n_spilled_secondaries
            == nxn_spills(photon_bank.bank_u32@, ptype_neutron, photon_bank.count as nat),
        r.max_pend_depth == 0 && r.pend_depth_hist@.len() == 0,
{
}

} // verus!
