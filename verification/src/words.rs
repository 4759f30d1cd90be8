//! Fixed-point accumulators.
//!
//! Tally contributions are added as 64-bit words with wrap-around, so that a
//! total does not depend on the order in which its parts arrive.
use vstd::prelude::*;

verus! {

/// One contribution: a slot of the accumulator and the word added to it.
#[derive(Clone, Copy, Debug)]
pub struct Deposit {
    pub slot: usize,
    pub word: u64,
}

/// The accumulator after one deposit.
pub open spec fn deposited(acc: Seq<u64>, d: Deposit) -> Seq<u64> {
    acc.update(d.slot as int, acc[d.slot as int].wrapping_add(d.word))
}

/// The accumulator after a series of deposits.
pub open spec fn deposited_all(acc: Seq<u64>, ds: Seq<Deposit>) -> Seq<u64>
    decreases ds.len(),
{
    if ds.len() == 0 {
        acc
    } else {
        deposited(deposited_all(acc, ds.drop_last()), ds.last())
    }
}

/// Deposits can be made in two parts.
pub proof fn lemma_deposit_in_parts(acc: Seq<u64>, a: Seq<Deposit>, b: Seq<Deposit>)
    ensures
        deposited_all(acc, a + b) == deposited_all(deposited_all(acc, a), b),
    decreases b.len(),
{
    if b.len() == 0 {
        assert(a + b =~= a);
    } else {
        lemma_deposit_in_parts(acc, a, b.drop_last());
        assert((a + b).drop_last() =~= a + b.drop_last());
    }
}

/// Deposits leave the accumulator as long as it was.
pub proof fn lemma_deposited_len(acc: Seq<u64>, ds: Seq<Deposit>)
    requires
        in_range(ds, acc.len()),
    ensures
        deposited_all(acc, ds).len() == acc.len(),
    decreases ds.len(),
{
    if ds.len() > 0 {
        let rest = ds.drop_last();
        assert forall|i: int| 0 <= i < rest.len() implies (#[trigger] rest[i]).slot
            < acc.len() by {
            assert(rest[i] == ds[i]);
        }
        assert(ds[ds.len() - 1].slot < acc.len());
        lemma_deposited_len(acc, rest);
    }
}

/// Sum of the words deposited into one slot.
pub open spec fn total_at(ds: Seq<Deposit>, slot: int) -> int
    decreases ds.len(),
{
    if ds.len() == 0 {
        0
    } else {
        total_at(ds.drop_last(), slot) + if ds.last().slot == slot {
            ds.last().word as int
        } else {
            0
        }
    }
}

pub open spec fn in_range(ds: Seq<Deposit>, n: nat) -> bool {
    forall|i: int| 0 <= i < ds.len() ==> (#[trigger] ds[i]).slot < n
}

pub fn deposit(acc: &mut Vec<u64>, d: Deposit)
    requires
        d.slot < old(acc)@.len(),
    ensures
        final(acc)@ == deposited(old(acc)@, d),
{
    let v: u64 = acc[d.slot];
    acc.set(d.slot, v.wrapping_add(d.word));
}

pub fn deposit_all(acc: &mut Vec<u64>, ds: &[Deposit])
    requires
        in_range(ds@, old(acc)@.len()),
    ensures
        final(acc)@ == deposited_all(old(acc)@, ds@),
        final(acc)@.len() == old(acc)@.len(),
{
    let mut i: usize = 0;
    assert(ds@.subrange(0, 0) =~= Seq::<Deposit>::empty());
    while i < ds.len()
        invariant
            i <= ds.len(),
            in_range(ds@, old(acc)@.len()),
            acc@ == deposited_all(old(acc)@, ds@.subrange(0, i as int)),
            acc@.len() == old(acc)@.len(),
        decreases ds.len() - i,
    {
        assert(ds@.subrange(0, i + 1).drop_last() =~= ds@.subrange(0, i as int));
        deposit(acc, ds[i]);
        i = i + 1;
    }
    assert(ds@.subrange(0, i as int) =~= ds@);
}

/// Sum of two accumulators, slot by slot.
pub open spec fn merged(a: Seq<u64>, b: Seq<u64>) -> Seq<u64> {
    Seq::new(a.len(), |i: int| a[i].wrapping_add(b[i]))
}

/// Adds one accumulator into another.
pub fn merge(a: &mut Vec<u64>, b: &[u64])
    requires
        old(a)@.len() == b.len(),
    ensures
        final(a)@ == merged(old(a)@, b@),
{
    let mut i: usize = 0;
    while i < b.len()
        invariant
            i <= b.len(),
            a@.len() == b.len(),
            old(a)@.len() == b.len(),
            forall|j: int| 0 <= j < i ==> #[trigger] a@[j] == old(a)@[j].wrapping_add(b@[j]),
            forall|j: int| i <= j < a@.len() ==> #[trigger] a@[j] == old(a)@[j],
        decreases b.len() - i,
    {
        let v: u64 = a[i];
        a.set(i, v.wrapping_add(b[i]));
        i = i + 1;
    }
    assert(a@ =~= merged(old(a)@, b@));
}

pub open spec fn wrap(x: int) -> int {
    x % 0x1_0000_0000_0000_0000
}

proof fn lemma_wrapping_add(a: u64, b: u64)
    ensures
        a.wrapping_add(b) == wrap(a + b),
{
    if a + b >= 0x1_0000_0000_0000_0000 {
        vstd::arithmetic::div_mod::lemma_small_mod(
            (a + b - 0x1_0000_0000_0000_0000) as nat,
            0x1_0000_0000_0000_0000,
        );
        vstd::arithmetic::div_mod::lemma_mod_add_multiples_vanish(
            a + b - 0x1_0000_0000_0000_0000,
            0x1_0000_0000_0000_0000,
        );
    } else {
        vstd::arithmetic::div_mod::lemma_small_mod((a + b) as nat, 0x1_0000_0000_0000_0000);
    }
}

/// Each slot ends at its start plus the words deposited there, modulo `2^64`:
/// the order of the deposits does not matter.
pub proof fn accumulation_is_a_sum(acc: Seq<u64>, ds: Seq<Deposit>, slot: int)
    requires
        in_range(ds, acc.len()),
        0 <= slot < acc.len(),
    ensures
        deposited_all(acc, ds).len() == acc.len(),
        deposited_all(acc, ds)[slot] == wrap(acc[slot] + total_at(ds, slot)),
    decreases ds.len(),
{
    if ds.len() == 0 {
        vstd::arithmetic::div_mod::lemma_small_mod(acc[slot] as nat, 0x1_0000_0000_0000_0000);
    } else {
        let rest = ds.drop_last();
        assert(in_range(rest, acc.len())) by {
            assert forall|i: int| 0 <= i < rest.len() implies (#[trigger] rest[i]).slot
                < acc.len() by {
                assert(rest[i] == ds[i]);
            }
        }
        accumulation_is_a_sum(acc, rest, slot);
        let d = ds.last();
        assert(d == ds[ds.len() - 1]);
        if d.slot == slot {
            let x = acc[slot] + total_at(rest, slot);
            lemma_wrapping_add(deposited_all(acc, rest)[slot], d.word);
            vstd::arithmetic::div_mod::lemma_add_mod_noop_right(
                d.word as int,
                x,
                0x1_0000_0000_0000_0000,
            );
            assert(wrap(wrap(x) + d.word) == wrap(x + d.word));
        }
    }
}

/// Splitting the deposits over two accumulators and merging them gives what one
/// accumulator would have held: parallel chunks reproduce the serial tally.
pub proof fn chunks_merge_to_the_serial_tally(
    acc: Seq<u64>,
    zeros: Seq<u64>,
    a: Seq<Deposit>,
    b: Seq<Deposit>,
)
    requires
        zeros.len() == acc.len(),
        forall|i: int| 0 <= i < zeros.len() ==> zeros[i] == 0,
        in_range(a, acc.len()),
        in_range(b, acc.len()),
    ensures
        deposited_all(acc, a + b) == merged(deposited_all(acc, a), deposited_all(zeros, b)),
{
    let both = a + b;
    assert(in_range(both, acc.len())) by {
        assert forall|i: int| 0 <= i < both.len() implies (#[trigger] both[i]).slot < acc.len() by {
            if i < a.len() {
                assert(both[i] == a[i]);
            } else {
                assert(both[i] == b[i - a.len()]);
            }
        }
    }
    if acc.len() > 0 {
        accumulation_is_a_sum(acc, both, 0);
        accumulation_is_a_sum(acc, a, 0);
        accumulation_is_a_sum(zeros, b, 0);
    } else {
        if both.len() > 0 {
            assert(both[0].slot < acc.len());
        }
        if a.len() > 0 {
            assert(a[0].slot < acc.len());
        }
    }
    assert forall|i: int| 0 <= i < acc.len() implies deposited_all(acc, both)[i] == merged(
        deposited_all(acc, a),
        deposited_all(zeros, b),
    )[i] by {
        accumulation_is_a_sum(acc, both, i);
        accumulation_is_a_sum(acc, a, i);
        accumulation_is_a_sum(zeros, b, i);
        lemma_total_append(a, b, i);
        lemma_wrapping_add(deposited_all(acc, a)[i], deposited_all(zeros, b)[i]);
        let x = acc[i] + total_at(a, i);
        let y = total_at(b, i);
        vstd::arithmetic::div_mod::lemma_add_mod_noop(x, y, 0x1_0000_0000_0000_0000);
        assert(wrap(wrap(x) + wrap(y)) == wrap(x + y));
    }
    assert(deposited_all(acc, both) =~= merged(deposited_all(acc, a), deposited_all(zeros, b)));
}

proof fn lemma_total_append(a: Seq<Deposit>, b: Seq<Deposit>, slot: int)
    ensures
        total_at(a + b, slot) == total_at(a, slot) + total_at(b, slot),
    decreases b.len(),
{
    if b.len() == 0 {
        assert(a + b =~= a);
    } else {
        lemma_total_append(a, b.drop_last(), slot);
        assert((a + b).drop_last() =~= a + b.drop_last());
    }
}

/// Merging is commutative: the order in which chunks finish does not matter.
pub proof fn merge_order_does_not_matter(acc: Seq<u64>, a: Seq<u64>, b: Seq<u64>)
    requires
        a.len() == acc.len(),
        b.len() == acc.len(),
    ensures
        merged(merged(acc, a), b) == merged(merged(acc, b), a),
{
    assert forall|i: int| 0 <= i < acc.len() implies merged(merged(acc, a), b)[i] == merged(
        merged(acc, b),
        a,
    )[i] by {
        lemma_wrapping_add(acc[i], a[i]);
        lemma_wrapping_add(acc[i], b[i]);
        lemma_wrapping_add(acc[i].wrapping_add(a[i]), b[i]);
        lemma_wrapping_add(acc[i].wrapping_add(b[i]), a[i]);
        let m: int = 0x1_0000_0000_0000_0000;
        vstd::arithmetic::div_mod::lemma_add_mod_noop_right(b[i] as int, acc[i] + a[i], m);
        vstd::arithmetic::div_mod::lemma_add_mod_noop_right(a[i] as int, acc[i] + b[i], m);
    }
    assert(merged(merged(acc, a), b) =~= merged(merged(acc, b), a));
}

/// Reads an accumulator word as the signed fixed-point number it holds.
pub open spec fn signed(word: u64) -> int {
    if word >= 0x8000_0000_0000_0000 {
        word - 0x1_0000_0000_0000_0000
    } else {
        word as int
    }
}

pub fn signed_word(word: u64) -> (r: i64)
    ensures
        r == signed(word),
{
    if word >= 0x8000_0000_0000_0000 {
        let gap: u64 = u64::MAX - word;
        -(gap as i64) - 1
    } else {
        word as i64
    }
}

/// Read as signed, a word keeps its value modulo `2^64`.
pub proof fn signed_words_are_the_words_modulo(word: u64, r: i64)
    requires
        call_ensures(signed_word, (word,), r),
    ensures
        r >= 0 ==> r == word,
        r < 0 ==> r + 0x1_0000_0000_0000_0000 == word,
{
}

/// Merging adds word by word, modulo `2^64`.
pub proof fn merged_words_are_sums(a: Seq<u64>, b: Seq<u64>, i: int)
    requires
        a.len() == b.len(),
        0 <= i < a.len(),
    ensures
        merged(a, b).len() == a.len(),
        merged(a, b)[i] == (a[i] + b[i]) % 0x1_0000_0000_0000_0000,
{
}

} // verus!
