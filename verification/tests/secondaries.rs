//! Pending secondaries, the particle bank and the touched list.
use yamc_transport::bank::{
    bank_progeny, bank_slots, count_nxn_spills, progeny_record, queue_or_spill, spilled_record,
    stack_or_bank, Bank, BankRecord, LostParticleResult,
};
use yamc_transport::ieee::Real;
use yamc_transport::layout::{BANK_GEN_FISSION, BANK_GEN_NXN_SPILL};
use yamc_transport::pend::{
    Particle, PendDrain, PendEntry, PendQueue, RegisterStack, PEND_SLOTS,
};
use yamc_transport::spill::{owner_tally, per_history_spill_cap, Touch, TouchedList, PERHIST_K};

fn num(x: f64) -> Real {
    Real::new(x.to_bits())
}

fn entry(seed: u32, nxn: bool) -> PendEntry {
    PendEntry {
        seed,
        nxn,
        particle: Particle {
            energy: num(seed as f64),
            px: num(0.0),
            py: num(0.0),
            pz: num(0.0),
            dx: num(0.0),
            dy: num(0.0),
            dz: num(1.0),
            weight: num(1.0),
        },
    }
}

fn record(ptype: u32, seed: u32, gen: u32) -> BankRecord<f64> {
    BankRecord {
        energy: seed as f64,
        px: 1.0,
        py: 2.0,
        pz: 3.0,
        dx: 4.0,
        dy: 5.0,
        dz: 6.0,
        weight: 7.0,
        ptype,
        cell: 8,
        seed,
        gen,
        source_idx: seed,
    }
}

#[test]
fn queue_drains_in_its_order() {
    for (drain, expected) in [
        (PendDrain::Fifo, [1u32, 2, 3]),
        (PendDrain::Lifo, [3u32, 2, 1]),
    ] {
        let mut q = PendQueue::new(drain);
        for seed in 1..=3 {
            q.push(entry(seed, true));
        }
        assert_eq!(q.len(), 3);
        let out: Vec<u32> = (0..3).map(|_| q.pop().unwrap().seed).collect();
        assert_eq!(out, expected);
        assert!(q.is_empty());
        assert!(q.pop().is_none());
    }
}

#[test]
fn queue_counts_spills_past_the_register_slots() {
    let mut q = PendQueue::new(PendDrain::Lifo);
    for seed in 0..PEND_SLOTS as u32 {
        q.push(entry(seed, true));
    }
    assert_eq!((q.depth(), q.spilled()), (PEND_SLOTS as u32, 0));
    // Fission progeny take no register slot.
    q.push(entry(90, false));
    assert_eq!((q.depth(), q.spilled()), (PEND_SLOTS as u32, 0));
    q.push(entry(91, true));
    assert_eq!((q.depth(), q.spilled()), (PEND_SLOTS as u32, 1));
    assert_eq!(q.len(), PEND_SLOTS + 2);
}

#[test]
fn register_stack_mirrors_the_queue_until_it_is_full() {
    let mut stack = RegisterStack::new();
    let mut queue = PendQueue::new(PendDrain::Lifo);
    for seed in 0..PEND_SLOTS as u32 {
        assert!(stack.push(entry(seed, true)).is_none());
        queue.push(entry(seed, true));
    }
    let spilled = stack.push(entry(77, true)).unwrap();
    assert_eq!(spilled.seed, 77);
    for _ in 0..PEND_SLOTS {
        assert_eq!(stack.pop().unwrap().seed, queue.pop().unwrap().seed);
    }
    assert!(stack.is_empty() && stack.pop().is_none());
}

#[test]
fn full_stack_hands_over_to_the_bank() {
    let mut stack = RegisterStack::new();
    let mut bank = Bank::new(2, 0.0);
    for seed in 0..PEND_SLOTS as u32 + 1 {
        stack_or_bank(
            &mut stack,
            &mut bank,
            entry(seed, true),
            record(0, seed, BANK_GEN_NXN_SPILL),
        );
    }
    assert_eq!(bank.count, 1);
    assert_eq!(bank.bank_u32[2], PEND_SLOTS as u32);
    assert_eq!(stack.pop().unwrap().seed, PEND_SLOTS as u32 - 1);
}

#[test]
fn every_reservation_is_a_record_or_an_overflow() {
    assert_eq!(bank_slots(0), 1);
    assert_eq!(bank_slots(5), 5);
    let mut bank = Bank::new(2, 0.0);
    for seed in 1..=3 {
        bank.append(record(0, seed, BANK_GEN_FISSION));
    }
    assert_eq!((bank.count, bank.overflow), (3, 1));
    assert_eq!(
        bank.bank_f64,
        vec![1.0, 1.0, 2.0, 3.0, 4.0, 5.0, 6.0, 7.0, 2.0, 1.0, 2.0, 3.0, 4.0, 5.0, 6.0, 7.0]
    );
    assert_eq!(bank.bank_u32, vec![0, 8, 1, 1, 0, 8, 2, 1]);
    assert_eq!(bank.source_idx, vec![1, 2]);
}

#[test]
fn spills_are_counted_among_neutrons_only() {
    let neutron = 0;
    let photon = 1;
    let words = [
        neutron, 8, 1, BANK_GEN_NXN_SPILL, //
        photon, 8, 2, BANK_GEN_NXN_SPILL, //
        neutron, 8, 3, BANK_GEN_FISSION, //
        neutron, 8, 4, BANK_GEN_NXN_SPILL,
    ];
    assert_eq!(count_nxn_spills(&words, 4, neutron), 2);
    assert_eq!(count_nxn_spills(&words, 3, neutron), 1);
    // A count past the records that were read back.
    assert_eq!(count_nxn_spills(&words, 9, neutron), 2);
    assert_eq!(count_nxn_spills(&[], 9, neutron), 0);
}

#[test]
fn loss_log_counts_all_and_keeps_the_first() {
    let mut log = LostParticleResult::new();
    for id in 0..5u32 {
        log.add_loss(id, 3);
    }
    assert_eq!(log.count, 5);
    assert_eq!(log.records, vec![0, 1, 2]);
}

#[test]
fn spill_capacity_is_the_bins_past_the_registers() {
    let k = PERHIST_K as usize;
    assert_eq!(per_history_spill_cap(1000, 10, 2), 0);
    assert_eq!(per_history_spill_cap(1000, 100, 2), 200 - k);
    assert_eq!(per_history_spill_cap(100, 1000, 2), 100 - k);
    assert_eq!(per_history_spill_cap(100, u32::MAX, usize::MAX), 100 - k);
    assert_eq!(per_history_spill_cap(0, 10, 10), 0);
}

#[test]
fn touched_list_finds_its_bins_again() {
    let mut list = TouchedList::new();
    for bin in 0..PERHIST_K {
        let t: Touch = list.touch(bin * 2);
        assert_eq!((t.position, t.fresh), (bin as usize, true));
    }
    assert_eq!(list.spilled(), 0);
    let t = list.touch(6);
    assert_eq!((t.position, t.fresh), (3, false));
    let t = list.touch(1);
    assert_eq!((t.position, t.fresh), (PERHIST_K as usize, true));
    assert_eq!((list.len(), list.spilled()), (PERHIST_K as usize + 1, 1));
    assert_eq!(list.bin(PERHIST_K as usize), 1);
}

#[test]
fn bin_belongs_to_the_tally_whose_range_holds_it() {
    let offsets = [0, 4, 4, 10];
    assert_eq!(owner_tally(&offsets, 3, 3), 0);
    assert_eq!(owner_tally(&offsets, 3, 4), 2);
    assert_eq!(owner_tally(&offsets, 3, 9), 2);
}

#[test]
fn slots_past_the_records_stay_zero() {
    let mut bank = Bank::new(3, 0.0);
    bank.append(record(1, 5, BANK_GEN_FISSION));
    assert!(bank.bank_f64[8..].iter().all(|x| *x == 0.0));
    assert!(bank.bank_u32[4..].iter().all(|x| *x == 0));
    assert_eq!(bank.source_idx, vec![5, 0, 0]);
    bank.append(record(1, 6, BANK_GEN_FISSION));
    assert!(bank.bank_f64[16..].iter().all(|x| *x == 0.0));
    bank.append(record(1, 7, BANK_GEN_FISSION));
    let words = (bank.bank_f64.clone(), bank.bank_u32.clone(), bank.source_idx.clone());
    // A full bank keeps its words.
    bank.append(record(1, 8, BANK_GEN_FISSION));
    assert_eq!(words, (bank.bank_f64, bank.bank_u32, bank.source_idx));
    assert_eq!(bank.overflow, 1);
}

#[test]
fn banked_neutron_is_the_one_that_was_queued() {
    let mut e = entry(9, true);
    e.particle.px = num(1.5);
    e.particle.weight = num(0.25);
    let r = spilled_record(e, 3, 11, 7);
    assert_eq!((r.energy, r.px, r.weight), (num(9.0), num(1.5), num(0.25)));
    assert_eq!((r.dx, r.dy, r.dz), (num(0.0), num(0.0), num(1.0)));
    assert_eq!((r.ptype, r.cell, r.seed, r.gen, r.source_idx), (7, 3, 9, BANK_GEN_NXN_SPILL, 11));
    assert_eq!(progeny_record(e, 3, 11, 7).gen, BANK_GEN_FISSION);
}

#[test]
fn secondary_past_the_slots_is_banked_as_a_spill() {
    let mut stack = RegisterStack::new();
    let mut bank = Bank::new(2, num(0.0));
    for seed in 0..PEND_SLOTS as u32 + 1 {
        queue_or_spill(&mut stack, &mut bank, entry(seed, true), 3, 11, 7);
    }
    assert_eq!(bank.count, 1);
    assert_eq!(bank.bank_u32[..4], [7, 3, PEND_SLOTS as u32, BANK_GEN_NXN_SPILL]);
    assert_eq!(bank.bank_f64[0], num(PEND_SLOTS as f64));
    bank_progeny(&mut bank, entry(60, false), 3, 11, 7);
    assert_eq!(bank.bank_u32[4..], [7, 3, 60, BANK_GEN_FISSION]);
    assert_eq!(count_nxn_spills(&bank.bank_u32, bank.count, 7), 1);
    assert_eq!(stack.pop().unwrap().seed, PEND_SLOTS as u32 - 1);
}
