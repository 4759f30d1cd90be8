//! Per-history touched bins.
//!
//! Batch-free variance needs, for each history, the total it scored into every
//! flat tally bin. The bins live in a short register list; a history that
//! touches more of them continues in a global spill area whose size is fixed
//! before the launch.
use vstd::prelude::*;

verus! {

/// Entries of the register list.
pub const PERHIST_K: u32 = 32;

/// Distinct bins a history of at most `max_steps` steps can touch, beyond the
/// register list: one bin per tally and step, and no more bins than exist.
pub open spec fn spill_cap(total_out_len: nat, max_steps: nat, n_tallies: nat) -> nat {
    let touched = if max_steps * n_tallies <= total_out_len {
        max_steps * n_tallies
    } else {
        total_out_len
    };
    if touched <= PERHIST_K {
        0
    } else {
        (touched - PERHIST_K) as nat
    }
}

/// Spill entries to reserve for each history.
///
/// A history is in one cell at one energy in each step, so it touches at most
/// one flat bin per tally and step, and at most `total_out_len` bins in all.
/// The first [`PERHIST_K`] of them live in the register list.
pub fn per_history_spill_cap(total_out_len: usize, max_steps: u32, n_tallies: usize) -> (r: usize)
    ensures
        r == spill_cap(total_out_len as nat, max_steps as nat, n_tallies as nat),
{
    let touched: usize = match (max_steps as usize).checked_mul(n_tallies) {
        Some(product) => if product <= total_out_len {
            product
        } else {
            total_out_len
        },
        None => total_out_len,
    };
    touched.saturating_sub(PERHIST_K as usize)
}

/// Where a contribution to a bin goes.
#[derive(Clone, Copy, Debug)]
pub struct Touch {
    /// Position in the touched list, register entries first.
    pub position: usize,
    /// The bin was not in the list before.
    pub fresh: bool,
}

/// The distinct bins a history has touched, in order of first touch.
pub struct TouchedList {
    registers: Vec<u32>,
    spill: Vec<u32>,
}

/// The list after a touch of `bin`.
pub open spec fn touched(list: Seq<u32>, bin: u32) -> Seq<u32> {
    if list.contains(bin) {
        list
    } else {
        list.push(bin)
    }
}

impl View for TouchedList {
    type V = Seq<u32>;

    closed spec fn view(&self) -> Seq<u32> {
        self.registers@ + self.spill@
    }
}

impl TouchedList {
    /// No bin occurs twice, and the spill is used only once the registers are
    /// full.
    pub closed spec fn wf(self) -> bool {
        &&& self.registers@.len() <= PERHIST_K
        &&& self.spill@.len() > 0 ==> self.registers@.len() == PERHIST_K
        &&& self@.no_duplicates()
    }

    /// Entries that live in the spill area.
    pub open spec fn spilled_spec(self) -> nat {
        if self@.len() <= PERHIST_K {
            0
        } else {
            (self@.len() - PERHIST_K) as nat
        }
    }

    pub fn new() -> (r: TouchedList)
        ensures
            r.wf(),
            r@ == Seq::<u32>::empty(),
    {
        let r = TouchedList { registers: Vec::new(), spill: Vec::new() };
        assert(r@ =~= Seq::<u32>::empty());
        r
    }

    /// Number of distinct bins touched.
    pub fn len(&self) -> (r: usize)
        requires
            self.wf(),
            self@.len() <= usize::MAX,
        ensures
            r == self@.len(),
    {
        self.registers.len() + self.spill.len()
    }

    /// Number of entries in the spill area.
    pub fn spilled(&self) -> (r: usize)
        requires
            self.wf(),
        ensures
            r == self.spilled_spec(),
    {
        self.spill.len()
    }

    /// The bin at a position.
    pub fn bin(&self, position: usize) -> (r: u32)
        requires
            self.wf(),
            position < self@.len(),
        ensures
            r == self@[position as int],
    {
        let n: usize = self.registers.len();
        if position < n {
            self.registers[position]
        } else {
            self.spill[position - n]
        }
    }

    /// Finds `bin`, appending it when it is new. The value that belongs to the
    /// bin is kept by the caller at the returned position.
    pub fn touch(&mut self, bin: u32) -> (r: Touch)
        requires
            old(self).wf(),
            old(self)@.len() < usize::MAX,
        ensures
            final(self).wf(),
            final(self)@ == touched(old(self)@, bin),
            r.fresh == !old(self)@.contains(bin),
            r.position < final(self)@.len(),
            final(self)@[r.position as int] == bin,
    {
        let ghost before = self@;
        let n: usize = self.registers.len();
        let mut j: usize = 0;
        while j < n
            invariant
                j <= n,
                n == self.registers@.len(),
                self@ == before,
                *self == *old(self),
                old(self).wf(),
                forall|i: int| 0 <= i < j ==> self.registers@[i] != bin,
            decreases n - j,
        {
            if self.registers[j] == bin {
                assert(before[j as int] == bin);
                return Touch { position: j, fresh: false };
            }
            j = j + 1;
        }
        let m: usize = self.spill.len();
        let mut k: usize = 0;
        while k < m
            invariant
                k <= m,
                m == self.spill@.len(),
                n == self.registers@.len(),
                self@ == before,
                *self == *old(self),
                old(self).wf(),
                n + m < usize::MAX,
                forall|i: int| 0 <= i < k ==> self.spill@[i] != bin,
            decreases m - k,
        {
            if self.spill[k] == bin {
                assert(before[n + k] == bin);
                return Touch { position: n + k, fresh: false };
            }
            k = k + 1;
        }
        assert(!before.contains(bin)) by {
            if before.contains(bin) {
                let i = choose|i: int| 0 <= i < before.len() && before[i] == bin;
                if i < n {
                    assert(self.registers@[i] == bin);
                } else {
                    assert(self.spill@[i - n] == bin);
                }
            }
        }
        if n < PERHIST_K as usize {
            self.registers.push(bin);
            assert(self@ =~= before.push(bin));
        } else {
            self.spill.push(bin);
            assert(self@ =~= before.push(bin));
        }
        Touch { position: n + m, fresh: true }
    }
}

/// The list after the touches of one history: a sequence of steps, each with
/// the bins it scored.
pub open spec fn touched_by_step(list: Seq<u32>, bins: Seq<u32>) -> Seq<u32>
    decreases bins.len(),
{
    if bins.len() == 0 {
        list
    } else {
        touched(touched_by_step(list, bins.drop_last()), bins.last())
    }
}

pub open spec fn touched_by_history(steps: Seq<Seq<u32>>) -> Seq<u32>
    decreases steps.len(),
{
    if steps.len() == 0 {
        Seq::empty()
    } else {
        touched_by_step(touched_by_history(steps.drop_last()), steps.last())
    }
}

proof fn lemma_step(list: Seq<u32>, bins: Seq<u32>, total: nat)
    requires
        list.no_duplicates(),
        forall|i: int| 0 <= i < list.len() ==> list[i] < total,
        forall|i: int| 0 <= i < bins.len() ==> bins[i] < total,
    ensures
        touched_by_step(list, bins).no_duplicates(),
        touched_by_step(list, bins).len() <= list.len() + bins.len(),
        forall|i: int|
            0 <= i < touched_by_step(list, bins).len() ==> touched_by_step(list, bins)[i] < total,
    decreases bins.len(),
{
    if bins.len() > 0 {
        lemma_step(list, bins.drop_last(), total);
        assert forall|i: int| 0 <= i < bins.drop_last().len() implies bins.drop_last()[i] < total by {
            assert(bins.drop_last()[i] == bins[i]);
        }
    }
}

proof fn lemma_history(steps: Seq<Seq<u32>>, n_tallies: nat, total: nat)
    requires
        forall|s: int| 0 <= s < steps.len() ==> (#[trigger] steps[s]).len() <= n_tallies,
        forall|s: int, i: int|
            0 <= s < steps.len() && 0 <= i < steps[s].len() ==> #[trigger] steps[s][i] < total,
    ensures
        touched_by_history(steps).no_duplicates(),
        touched_by_history(steps).len() <= steps.len() * n_tallies,
        forall|i: int|
            0 <= i < touched_by_history(steps).len() ==> touched_by_history(steps)[i] < total,
    decreases steps.len(),
{
    if steps.len() > 0 {
        let rest = steps.drop_last();
        assert forall|s: int| 0 <= s < rest.len() implies (#[trigger] rest[s]).len() <= n_tallies by {
            assert(rest[s] == steps[s]);
        }
        assert forall|s: int, i: int|
            0 <= s < rest.len() && 0 <= i < rest[s].len() implies #[trigger] rest[s][i] < total by {
            assert(rest[s][i] == steps[s][i]);
        }
        lemma_history(rest, n_tallies, total);
        lemma_step(touched_by_history(rest), steps.last(), total);
        assert(rest.len() * n_tallies + n_tallies == steps.len() * n_tallies) by (nonlinear_arith)
            requires
                rest.len() + 1 == steps.len(),
        ;
        assert(steps.last() == steps[steps.len() - 1]);
    } else {
        assert(0 * n_tallies == 0) by (nonlinear_arith);
    }
}

proof fn lemma_distinct_below(s: Seq<u32>, total: nat)
    requires
        s.no_duplicates(),
        forall|i: int| 0 <= i < s.len() ==> s[i] < total,
    ensures
        s.len() <= total,
{
    let m = s.map_values(|x: u32| x as int);
    assert(m.no_duplicates());
    m.unique_seq_to_set();
    vstd::set_lib::lemma_int_range(0, total as int);
    assert(m.to_set().subset_of(vstd::set_lib::set_int_range(0, total as int))) by {
        assert forall|x: int| m.to_set().contains(x) implies vstd::set_lib::set_int_range(
            0,
            total as int,
        ).contains(x) by {
            let i = choose|i: int| 0 <= i < m.len() && m[i] == x;
            assert(s[i] < total);
        }
    }
    vstd::set_lib::lemma_len_subset(m.to_set(), vstd::set_lib::set_int_range(0, total as int));
}

/// The spill area never overflows: a history of at most `max_steps` steps, each
/// touching at most one bin per tally, needs no more spill entries than
/// [`per_history_spill_cap`] reserves.
pub proof fn spill_never_overflows(
    steps: Seq<Seq<u32>>,
    total_out_len: nat,
    max_steps: nat,
    n_tallies: nat,
)
    requires
        steps.len() <= max_steps,
        forall|s: int| 0 <= s < steps.len() ==> (#[trigger] steps[s]).len() <= n_tallies,
        forall|s: int, i: int|
            0 <= s < steps.len() && 0 <= i < steps[s].len() ==> #[trigger] steps[s][i]
                < total_out_len,
    ensures
        touched_by_history(steps).no_duplicates(),
        touched_by_history(steps).len() <= PERHIST_K + spill_cap(
            total_out_len,
            max_steps,
            n_tallies,
        ),
{
    lemma_history(steps, n_tallies, total_out_len);
    lemma_distinct_below(touched_by_history(steps), total_out_len);
    assert(steps.len() * n_tallies <= max_steps * n_tallies) by (nonlinear_arith)
        requires
            steps.len() <= max_steps,
    ;
}

/// With so many steps that every bin could be touched, the reservation is the
/// number of bins beyond the register list.
pub proof fn unbounded_steps_reserve_every_bin(total_out_len: nat, max_steps: nat, n_tallies: nat)
    requires
        max_steps * n_tallies >= total_out_len,
        total_out_len > PERHIST_K,
    ensures
        spill_cap(total_out_len, max_steps, n_tallies) == total_out_len - PERHIST_K,
{
}

/// Tally that owns a flat bin: the last of the first `n_tallies` tallies whose
/// outputs start at or before it (tally 0 when none does).
pub open spec fn owner_of(out_offsets: Seq<u32>, n_tallies: nat, bin: u32) -> nat
    decreases n_tallies,
{
    if n_tallies == 0 {
        0
    } else if bin >= out_offsets[n_tallies - 1] {
        (n_tallies - 1) as nat
    } else {
        owner_of(out_offsets, (n_tallies - 1) as nat, bin)
    }
}

pub fn owner_tally(out_offsets: &[u32], n_tallies: usize, bin: u32) -> (t: usize)
    requires
        n_tallies <= out_offsets@.len(),
    ensures
        t == owner_of(out_offsets@, n_tallies as nat, bin),
{
    let mut t: usize = 0;
    let mut tt: usize = 0;
    while tt < n_tallies
        invariant
            tt <= n_tallies <= out_offsets@.len(),
            t == owner_of(out_offsets@, tt as nat, bin),
        decreases n_tallies - tt,
    {
        if bin >= out_offsets[tt] {
            t = tt;
        }
        tt = tt + 1;
    }
    t
}

/// With non-decreasing offsets, the owner is the tally whose output range holds
/// the bin.
pub proof fn owner_range_holds_bin(out_offsets: Seq<u32>, n_tallies: nat, bin: u32)
    requires
        out_offsets.len() == n_tallies + 1,
        forall|i: int, j: int| 0 <= i <= j < out_offsets.len() ==> out_offsets[i] <= out_offsets[j],
        out_offsets[0] <= bin < out_offsets[n_tallies as int],
    ensures
        owner_of(out_offsets, n_tallies, bin) < n_tallies,
        out_offsets[owner_of(out_offsets, n_tallies, bin) as int] <= bin,
        bin < out_offsets[owner_of(out_offsets, n_tallies, bin) as int + 1],
{
    lemma_owner(out_offsets, n_tallies, bin);
}

proof fn lemma_owner(out_offsets: Seq<u32>, n: nat, bin: u32)
    requires
        n < out_offsets.len(),
        forall|i: int, j: int| 0 <= i <= j < out_offsets.len() ==> out_offsets[i] <= out_offsets[j],
        out_offsets[0] <= bin < out_offsets[n as int],
    ensures
        owner_of(out_offsets, n, bin) < n,
        out_offsets[owner_of(out_offsets, n, bin) as int] <= bin,
        bin < out_offsets[owner_of(out_offsets, n, bin) as int + 1],
    decreases n,
{
    if bin < out_offsets[n - 1] {
        lemma_owner(out_offsets, (n - 1) as nat, bin);
    }
}

/// The spill holds what a history can touch beyond the first thirty-two bins: as many
/// as its steps and tallies allow, and never more than there are bins.
pub proof fn the_spill_holds_the_rest(
    total_out_len: usize,
    max_steps: u32,
    n_tallies: usize,
    r: usize,
)
    requires
        call_ensures(per_history_spill_cap, (total_out_len, max_steps, n_tallies), r),
    ensures
        r > 0 ==> r + 32 == total_out_len || r + 32 == max_steps * n_tallies,
        r > 0 ==> r + 32 <= total_out_len && r + 32 <= max_steps * n_tallies,
        r == 0 ==> total_out_len <= 32 || max_steps * n_tallies <= 32,
{
}

/// Touching a bin puts it at the end of the list, unless it is there already; no
/// other bin comes or goes, and none moves.
pub proof fn touching_adds_a_bin_once(list: Seq<u32>, bin: u32)
    requires
        list.no_duplicates(),
    ensures
        touched(list, bin).no_duplicates(),
        touched(list, bin).contains(bin),
        list.contains(bin) ==> touched(list, bin) == list,
        !list.contains(bin) ==> touched(list, bin).len() == list.len() + 1 && touched(
            list,
            bin,
        )[list.len() as int] == bin,
        forall|i: int| 0 <= i < list.len() ==> #[trigger] touched(list, bin)[i] == list[i],
{
    if !list.contains(bin) {
        let s = list.push(bin);
        assert(s[list.len() as int] == bin);
        assert forall|i: int, j: int| 0 <= i < s.len() && 0 <= j < s.len() && i != j implies s[i]
            != s[j] by {
            if i == list.len() {
                assert(list[j] == s[j]);
            } else if j == list.len() {
                assert(list[i] == s[i]);
            }
        }
    }
}

/// Past the first thirty-two, every touched bin is in the spill.
pub proof fn bins_past_the_registers_are_spilled(list: &TouchedList, r: usize)
    requires
        list.wf(),
        call_ensures(TouchedList::spilled, (list,), r),
    ensures
        list@.len() > 32 ==> r + 32 == list@.len(),
        list@.len() <= 32 ==> r == 0,
{
}

/// The owner of a bin is the tally in whose range of outputs it lies.
pub proof fn a_bin_is_owned_by_its_tally(out_offsets: &[u32], n_tallies: usize, bin: u32, t: usize)
    requires
        out_offsets@.len() == n_tallies + 1,
        forall|i: int, j: int|
            0 <= i <= j < out_offsets@.len() ==> out_offsets@[i] <= out_offsets@[j],
        out_offsets@[0] <= bin < out_offsets@[n_tallies as int],
        call_ensures(owner_tally, (out_offsets, n_tallies, bin), t),
    ensures
        t < n_tallies,
        out_offsets@[t as int] <= bin < out_offsets@[t + 1],
{
    owner_range_holds_bin(out_offsets@, n_tallies as nat, bin);
}

} // verus!
