//! Pending secondaries of a history.
//!
//! A reaction that emits more than one neutron queues the extra ones; the
//! history transports them after the current particle ends. Each queued
//! secondary carries its own collision seed, so the order in which the queue is
//! drained cannot change what the history samples.
use crate::ieee::Real;
use vstd::multiset::Multiset;
use vstd::prelude::*;

verus! {

/// Drain order of the pending-secondary queue.
#[derive(Debug, Clone, Copy, PartialEq, Eq, Structural)]
pub enum PendDrain {
    /// Oldest queued secondary first.
    Fifo,
    /// Newest queued secondary first, the order of the device kernel.
    Lifo,
}

/// Secondaries a device thread can hold in registers.
pub const PEND_SLOTS: usize = 4;

/// [`PEND_SLOTS`] as the type of the kernel's counter.
pub const PEND_SLOTS_U32: u32 = 4;

/// Phase-space coordinates and statistical weight of a neutron.
#[derive(Clone, Copy, Debug)]
pub struct Particle {
    pub energy: Real,
    pub px: Real,
    pub py: Real,
    pub pz: Real,
    pub dx: Real,
    pub dy: Real,
    pub dz: Real,
    pub weight: Real,
}

/// One secondary waiting to be transported inside its parent's history.
#[derive(Clone, Copy, Debug)]
pub struct PendEntry {
    /// Collision seed derived from the secondary's place in the emission tree.
    pub seed: u32,
    /// An (n,xn) secondary, which takes a register slot on the device, as
    /// opposed to a fission progeny, which goes to the device bank.
    pub nxn: bool,
    pub particle: Particle,
}

/// Position of the entry that leaves a queue of `len` entries next.
pub open spec fn next_out(drain: PendDrain, len: nat) -> int {
    match drain {
        PendDrain::Fifo => 0,
        PendDrain::Lifo => len - 1,
    }
}

/// Number of (n,xn) entries.
pub open spec fn count_nxn(s: Seq<PendEntry>) -> nat
    decreases s.len(),
{
    if s.len() == 0 {
        0
    } else {
        count_nxn(s.drop_last()) + if s.last().nxn {
            1nat
        } else {
            0nat
        }
    }
}

/// The unbounded queue of a history, with the figures that describe how the
/// device's register slots would have been used.
pub struct PendQueue {
    drain: PendDrain,
    entries: Vec<PendEntry>,
    n_nxn: usize,
    n_spilled: u32,
    max_depth: u32,
}

impl View for PendQueue {
    type V = Seq<PendEntry>;

    closed spec fn view(&self) -> Seq<PendEntry> {
        self.entries@
    }
}

impl PendQueue {
    /// The running (n,xn) count is the true one, and the recorded depth never
    /// passes the slot count.
    pub closed spec fn wf(self) -> bool {
        &&& self.n_nxn == count_nxn(self.entries@)
        &&& self.max_depth <= PEND_SLOTS
    }

    pub closed spec fn drain_spec(self) -> PendDrain {
        self.drain
    }

    /// (n,xn) secondaries that were queued while every slot was taken.
    pub closed spec fn spilled_spec(self) -> u32 {
        self.n_spilled
    }

    /// Most register slots in use at once.
    pub closed spec fn depth_spec(self) -> u32 {
        self.max_depth
    }

    pub fn new(drain: PendDrain) -> (r: PendQueue)
        ensures
            r.wf(),
            r@ == Seq::<PendEntry>::empty(),
            r.drain_spec() == drain,
            r.spilled_spec() == 0,
            r.depth_spec() == 0,
    {
        PendQueue { drain, entries: Vec::new(), n_nxn: 0, n_spilled: 0, max_depth: 0 }
    }

    pub fn is_empty(&self) -> (r: bool)
        ensures
            r == (self@.len() == 0),
    {
        self.entries.len() == 0
    }

    pub fn len(&self) -> (r: usize)
        ensures
            r == self@.len(),
    {
        self.entries.len()
    }

    pub fn spilled(&self) -> (r: u32)
        ensures
            r == self.spilled_spec(),
    {
        self.n_spilled
    }

    pub fn depth(&self) -> (r: u32)
        requires
            self.wf(),
        ensures
            r == self.depth_spec(),
            r <= PEND_SLOTS,
    {
        self.max_depth
    }

    /// Queues a secondary. An (n,xn) secondary that finds every register slot
    /// taken counts as spilled; otherwise it may raise the recorded depth.
    pub fn push(&mut self, entry: PendEntry)
        requires
            old(self).wf(),
            old(self)@.len() < usize::MAX,
            old(self).spilled_spec() < u32::MAX,
        ensures
            final(self).wf(),
            final(self)@ == old(self)@.push(entry),
            final(self).drain_spec() == old(self).drain_spec(),
            final(self).spilled_spec() == old(self).spilled_spec() + if entry.nxn && count_nxn(
                old(self)@,
            ) >= PEND_SLOTS {
                1int
            } else {
                0int
            },
            final(self).depth_spec() == if entry.nxn && count_nxn(old(self)@) < PEND_SLOTS
                && count_nxn(old(self)@) + 1 > old(self).depth_spec() {
                count_nxn(old(self)@) + 1
            } else {
                old(self).depth_spec() as nat
            },
    {
        proof {
            lemma_count_le_len(self.entries@);
            assert(self.entries@.push(entry).drop_last() =~= self.entries@);
        }
        if entry.nxn {
            if self.n_nxn >= PEND_SLOTS {
                self.n_spilled = self.n_spilled + 1;
            } else if self.n_nxn as u32 + 1 > self.max_depth {
                self.max_depth = self.n_nxn as u32 + 1;
            }
            self.n_nxn = self.n_nxn + 1;
        }
        self.entries.push(entry);
    }

    /// Takes the next secondary out; the register slot of an (n,xn) one is
    /// free again.
    pub fn pop(&mut self) -> (r: Option<PendEntry>)
        requires
            old(self).wf(),
        ensures
            final(self).wf(),
            final(self).drain_spec() == old(self).drain_spec(),
            final(self).spilled_spec() == old(self).spilled_spec(),
            final(self).depth_spec() == old(self).depth_spec(),
            old(self)@.len() == 0 ==> r is None && final(self)@ == old(self)@,
            old(self)@.len() > 0 ==> {
                let i = next_out(old(self).drain_spec(), old(self)@.len());
                r == Some(old(self)@[i]) && final(self)@ == old(self)@.remove(i)
            },
    {
        let n: usize = self.entries.len();
        if n == 0 {
            return None;
        }
        let ghost before = self.entries@;
        let e: PendEntry = match self.drain {
            PendDrain::Fifo => {
                proof {
                    lemma_count_remove(before, 0);
                }
                self.entries.remove(0)
            },
            PendDrain::Lifo => {
                proof {
                    lemma_count_remove(before, n - 1);
                    assert(before.remove(n - 1) =~= before.drop_last());
                }
                self.entries.remove(n - 1)
            },
        };
        if e.nxn {
            self.n_nxn = self.n_nxn - 1;
        }
        Some(e)
    }
}

proof fn lemma_count_le_len(s: Seq<PendEntry>)
    ensures
        count_nxn(s) <= s.len(),
    decreases s.len(),
{
    if s.len() > 0 {
        lemma_count_le_len(s.drop_last());
    }
}

/// Taking out an entry takes it out of the count.
pub proof fn lemma_count_remove(s: Seq<PendEntry>, i: int)
    requires
        0 <= i < s.len(),
    ensures
        count_nxn(s) == count_nxn(s.remove(i)) + if s[i].nxn {
            1nat
        } else {
            0nat
        },
    decreases s.len(),
{
    if i == s.len() - 1 {
        assert(s.remove(i) =~= s.drop_last());
    } else {
        lemma_count_remove(s.drop_last(), i);
        assert(s.remove(i).drop_last() =~= s.drop_last().remove(i));
    }
}

/// The register stack of a device thread: at most [`PEND_SLOTS`] secondaries,
/// newest out first. What does not fit is handed to the particle bank.
pub struct RegisterStack {
    slots: Vec<PendEntry>,
}

impl View for RegisterStack {
    type V = Seq<PendEntry>;

    closed spec fn view(&self) -> Seq<PendEntry> {
        self.slots@
    }
}

impl RegisterStack {
    pub open spec fn wf(self) -> bool {
        self@.len() <= PEND_SLOTS
    }

    pub fn new() -> (r: RegisterStack)
        ensures
            r.wf(),
            r@ == Seq::<PendEntry>::empty(),
    {
        RegisterStack { slots: Vec::new() }
    }

    pub fn is_empty(&self) -> (r: bool)
        ensures
            r == (self@.len() == 0),
    {
        self.slots.len() == 0
    }

    /// Stores the secondary in a free slot, or gives it back to be banked.
    pub fn push(&mut self, entry: PendEntry) -> (spilled: Option<PendEntry>)
        requires
            old(self).wf(),
        ensures
            final(self).wf(),
            old(self)@.len() < PEND_SLOTS ==> spilled is None && final(self)@ == old(self)@.push(
                entry,
            ),
            old(self)@.len() >= PEND_SLOTS ==> spilled == Some(entry) && final(self)@ == old(
                self,
            )@,
    {
        if self.slots.len() < PEND_SLOTS {
            self.slots.push(entry);
            None
        } else {
            Some(entry)
        }
    }

    /// The newest secondary; its slot is free again.
    pub fn pop(&mut self) -> (r: Option<PendEntry>)
        requires
            old(self).wf(),
        ensures
            final(self).wf(),
            old(self)@.len() == 0 ==> r is None && final(self)@ == old(self)@,
            old(self)@.len() > 0 ==> r == Some(old(self)@.last()) && final(self)@ == old(
                self,
            )@.drop_last(),
    {
        self.slots.pop()
    }
}

/// The queue of a history that has spilled nothing and holds (n,xn) secondaries
/// only is the register stack of the device thread that runs it.
pub open spec fn mirrors(queue: Seq<PendEntry>, stack: Seq<PendEntry>) -> bool {
    queue == stack && count_nxn(queue) == queue.len() && queue.len() <= PEND_SLOTS
}

/// A newest-first queue and the register stack stay equal through pushes and
/// pops as long as a slot is free, and a push that finds no free slot is
/// counted by the one and spilled by the other.
pub proof fn register_stack_mirrors_queue(
    queue: Seq<PendEntry>,
    stack: Seq<PendEntry>,
    entry: PendEntry,
)
    requires
        mirrors(queue, stack),
        entry.nxn,
    ensures
        count_nxn(queue) >= PEND_SLOTS <==> stack.len() >= PEND_SLOTS,
        stack.len() < PEND_SLOTS ==> mirrors(queue.push(entry), stack.push(entry)),
        queue.len() > 0 ==> mirrors(
            queue.remove(next_out(PendDrain::Lifo, queue.len())),
            stack.drop_last(),
        ) && queue[next_out(PendDrain::Lifo, queue.len())] == stack.last(),
{
    assert(queue.push(entry).drop_last() =~= queue);
    if queue.len() > 0 {
        let i = next_out(PendDrain::Lifo, queue.len());
        lemma_count_remove(queue, i);
        lemma_count_le_len(queue.remove(i));
        assert(queue.remove(i) =~= queue.drop_last());
    }
}

/// A secondary together with the secondaries it will queue when it is
/// transported. The seed that a secondary carries fixes the whole tree.
pub struct Emission {
    pub entry: PendEntry,
    pub emits: Seq<Emission>,
}

pub open spec fn tree_size(t: Emission) -> nat
    decreases t,
{
    1 + forest_size(t.emits)
}

pub open spec fn forest_size(f: Seq<Emission>) -> nat
    decreases f,
{
    if f.len() == 0 {
        0
    } else {
        forest_size(f.drop_last()) + tree_size(f.last())
    }
}

/// Every secondary of the trees, with multiplicity.
pub open spec fn tree_entries(t: Emission) -> Multiset<PendEntry>
    decreases t,
{
    forest_entries(t.emits).insert(t.entry)
}

pub open spec fn forest_entries(f: Seq<Emission>) -> Multiset<PendEntry>
    decreases f,
{
    if f.len() == 0 {
        Multiset::empty()
    } else {
        forest_entries(f.drop_last()).add(tree_entries(f.last()))
    }
}

/// Sizes and entries of forests add up.
pub proof fn lemma_forest_append(a: Seq<Emission>, b: Seq<Emission>)
    ensures
        forest_size(a + b) == forest_size(a) + forest_size(b),
        forest_entries(a + b) =~= forest_entries(a).add(forest_entries(b)),
    decreases b.len(),
{
    if b.len() == 0 {
        assert(a + b =~= a);
    } else {
        lemma_forest_append(a, b.drop_last());
        assert((a + b).drop_last() =~= a + b.drop_last());
    }
}

/// Taking one tree out of a forest takes out its size and its entries.
pub proof fn lemma_forest_remove(f: Seq<Emission>, i: int)
    requires
        0 <= i < f.len(),
    ensures
        forest_size(f) == forest_size(f.remove(i)) + tree_size(f[i]),
        forest_entries(f) =~= forest_entries(f.remove(i)).add(tree_entries(f[i])),
    decreases f.len(),
{
    if i == f.len() - 1 {
        assert(f.remove(i) =~= f.drop_last());
    } else {
        lemma_forest_remove(f.drop_last(), i);
        assert(f.remove(i).drop_last() =~= f.drop_last().remove(i));
        assert(f.remove(i).last() == f.last());
    }
}

/// The order in which a queue that starts with `f` is drained: the entry that
/// leaves is transported, and what it emits joins the end of the queue.
pub open spec fn drained(drain: PendDrain, f: Seq<Emission>) -> Seq<PendEntry>
    decreases forest_size(f),
{
    if f.len() == 0 {
        Seq::empty()
    } else {
        let i = next_out(drain, f.len());
        proof {
            lemma_forest_remove(f, i);
            lemma_forest_append(f.remove(i), f[i].emits);
        }
        seq![f[i].entry] + drained(drain, f.remove(i) + f[i].emits)
    }
}

/// Whatever the drain order, a history transports every secondary of the
/// emission trees exactly once: neither order can drop or repeat one.
pub proof fn drain_order_visits_every_secondary(drain: PendDrain, f: Seq<Emission>)
    ensures
        drained(drain, f).to_multiset() =~= forest_entries(f),
    decreases forest_size(f),
{
    broadcast use vstd::seq_lib::group_to_multiset_ensures;

    if f.len() > 0 {
        let i = next_out(drain, f.len());
        lemma_forest_remove(f, i);
        lemma_forest_append(f.remove(i), f[i].emits);
        let rest = f.remove(i) + f[i].emits;
        drain_order_visits_every_secondary(drain, rest);
        let head = seq![f[i].entry];
        vstd::seq_lib::lemma_multiset_commutative(head, drained(drain, rest));
        assert(head =~= Seq::<PendEntry>::empty().push(f[i].entry));
        assert(head.to_multiset() =~= Multiset::singleton(f[i].entry));
        assert(drained(drain, f) == head + drained(drain, rest));
    } else {
        assert(drained(drain, f) =~= Seq::<PendEntry>::empty());
    }
}

/// The two drain orders transport the same secondaries.
pub proof fn drain_orders_agree(f: Seq<Emission>)
    ensures
        drained(PendDrain::Fifo, f).to_multiset() =~= drained(PendDrain::Lifo, f).to_multiset(),
{
    drain_order_visits_every_secondary(PendDrain::Fifo, f);
    drain_order_visits_every_secondary(PendDrain::Lifo, f);
}

/// First in first out hands over the entry that was there before all others, last in
/// first out the one that came last; the others stay as they are.
pub proof fn the_oldest_or_the_newest_comes_out(s: Seq<PendEntry>, e: PendEntry)
    ensures
        ({
            let newest = s.push(e);
            let i = next_out(PendDrain::Lifo, newest.len());
            newest[i] == e && newest.remove(i) =~= s
        }),
        ({
            let oldest = seq![e] + s;
            let i = next_out(PendDrain::Fifo, oldest.len());
            oldest[i] == e && oldest.remove(i) =~= s
        }),
{
}

/// The count is that of the entries born in a multiplying reaction.
pub proof fn multiplied_entries_are_counted(s: Seq<PendEntry>)
    ensures
        count_nxn(s) == s.filter(|e: PendEntry| e.nxn).len(),
    decreases s.len(),
{
    reveal(Seq::filter);
    if s.len() > 0 {
        multiplied_entries_are_counted(s.drop_last());
    }
}

} // verus!
