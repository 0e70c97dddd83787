use proofman::manager::completion::{DeviceCompletions, Ledger, SettleStep, TeardownStep};
use proofman::manager::counter::{Counter, PendingProof, WaitStep, WaitTimeoutTracker, NANOS};
use proofman::manager::scheduler::{
    candidate_keys, is_aggregation, recover_drained_witnesses, schedule_key, Attempt, Key,
    ProofType, RecursiveScheduler, StreamReservation, Witness, WorkerPick, RECURSIVE_ORDER,
};
use std::cmp::Reverse;

#[test]
fn pending_increments_and_drop_decrements() {
    let mut counter = Counter::new();
    let guard = counter.pending();
    assert_eq!(counter.get_count(), 1);
    guard.release(&mut counter);
    assert_eq!(counter.get_count(), 0);
}

#[test]
fn commit_disarms_the_decrement() {
    let mut counter = Counter::new();
    let mut guard = counter.pending();
    guard.commit();
    guard.release(&mut counter);
    assert_eq!(counter.get_count(), 1, "committed guard must not decrement on drop");
    counter.decrement(); // the "callback" settles it
    assert_eq!(counter.get_count(), 0);
}

#[test]
fn from_outstanding_adopts_without_incrementing() {
    let mut counter = Counter::new();
    counter.increment(); // unit counted at submit time
    let guard = PendingProof::from_outstanding(&counter);
    assert_eq!(counter.get_count(), 1, "adoption must not increment");
    guard.release(&mut counter);
    assert_eq!(counter.get_count(), 0);
}

#[test]
fn increments_are_not_lost() {
    let counter = std::sync::Mutex::new(Counter::new());
    let mut values: Vec<usize> = (0..4).flat_map(|_| -> Vec<usize> {
        (0..5).map(|_| counter.lock().unwrap().increment()).collect()
    })
    .collect();
    values.sort();
    assert_eq!(values, (1..=20).collect::<Vec<usize>>());
    assert_eq!(counter.lock().unwrap().get_count(), 20);
}

#[test]
fn waits_stop_report_and_give_up() {
    let mut counter = Counter::new_with_threshold(2);
    let mut tracker = WaitTimeoutTracker::new(0);
    counter.increment();
    assert!(matches!(
        counter.wait_until_threshold(&mut tracker, false, 1),
        WaitStep::Again { report: false, pump: false, micros: 1000 }
    ));
    assert!(matches!(
        counter.wait_until_threshold(&mut tracker, false, 61 * NANOS),
        WaitStep::Again { report: true, pump: false, micros: 1000 }
    ));
    assert!(matches!(
        counter.wait_until_threshold(&mut tracker, false, 600 * NANOS),
        WaitStep::Cancel { report: true }
    ));
    assert!(matches!(
        counter.wait_until_threshold(&mut tracker, false, 659 * NANOS),
        WaitStep::Cancel { report: false }
    ));
    assert!(matches!(counter.wait_until_threshold(&mut tracker, true, 600 * NANOS), WaitStep::Stop));
    assert!(counter.wakes_after_increment(counter.get_count() + 1));
    counter.increment();
    assert!(matches!(counter.wait_until_threshold(&mut tracker, false, 700 * NANOS), WaitStep::Stop));
    counter.reset();
    assert_eq!(counter.get_count(), 0);
    assert!(matches!(counter.wait_until_zero(&mut tracker, false, 700 * NANOS), WaitStep::Stop));
}

const BASIC: usize = 0;
const RECURSIVE1: usize = 2;

#[test]
fn arm_then_drop_settles() {
    let mut o = DeviceCompletions::new().acquire().unwrap();
    let l = o.ledger();
    let t = l.arm(7, BASIC);
    assert_eq!(l.remaining(), 1);
    t.release(l);
    assert_eq!(l.remaining(), 0);
}

#[test]
fn commit_transfers_settlement_to_the_async_path() {
    let mut o = DeviceCompletions::new().acquire().unwrap();
    let l = o.ledger();
    let mut t = l.arm(7, BASIC);
    t.commit();
    t.release(l);
    assert_eq!(l.remaining(), 1, "a committed unit stays outstanding until it completes");
    l.settle(7, BASIC);
    assert_eq!(l.remaining(), 0);
}

fn arm_committed(l: &mut Ledger, id: u64, kind: usize) {
    let mut t = l.arm(id, kind);
    t.commit();
    t.release(l);
}

#[test]
fn adopt_does_not_change_the_count_but_settles_on_drop() {
    let mut o = DeviceCompletions::new().acquire().unwrap();
    let l = o.ledger();
    arm_committed(l, 7, BASIC);
    let taken = l.adopt(7, BASIC);
    assert_eq!(l.remaining(), 1, "adopt must not double-count an already-armed unit");
    taken.release(l);
    assert_eq!(l.remaining(), 0, "an uncommitted adopt settles the unit it took over");
}

#[test]
fn settling_an_unknown_unit_is_a_no_op() {
    let mut o = DeviceCompletions::new().acquire().unwrap();
    let l = o.ledger();
    l.settle(1234, BASIC);
    assert_eq!(l.remaining(), 0);
    arm_committed(l, 1, BASIC);
    l.settle(999, BASIC);
    assert_eq!(l.remaining(), 1, "a stray completion must not settle someone else's unit");
}

#[test]
fn the_same_id_with_a_different_kind_is_a_distinct_unit() {
    let mut o = DeviceCompletions::new().acquire().unwrap();
    let l = o.ledger();
    arm_committed(l, 5, BASIC);
    arm_committed(l, 5, RECURSIVE1);
    assert_eq!(l.remaining(), 2, "(5, Basic) and (5, Recursive1) are different units");
    l.settle(5, BASIC);
    assert_eq!(l.remaining(), 1, "settling the basic unit must not settle the recursive one");
    l.settle(5, RECURSIVE1);
    assert_eq!(l.remaining(), 0);
}

#[test]
fn settling_twice_only_counts_once() {
    let mut o = DeviceCompletions::new().acquire().unwrap();
    let l = o.ledger();
    arm_committed(l, 3, BASIC);
    l.settle(3, BASIC);
    l.settle(3, BASIC);
    assert_eq!(l.remaining(), 0);
}

#[test]
fn the_capability_is_exclusive() {
    let mut completions = DeviceCompletions::new();
    let first = completions.acquire().unwrap();
    let epoch = first.epoch();
    assert!(completions.acquire().is_none());
    completions.release(first);
    let second = completions.acquire().unwrap();
    assert!(second.epoch() > epoch, "each owner gets a fresh epoch");
}

#[test]
fn owners_wait_and_tear_down() {
    let mut o = DeviceCompletions::new().acquire().unwrap();
    assert!(matches!(o.wait_settled(true, 0, None), SettleStep::Settled));
    arm_committed(o.ledger(), 1, BASIC);
    assert!(matches!(o.wait_settled(false, 5, Some(10)), SettleStep::Pump));
    assert!(matches!(o.wait_settled(false, 10, Some(10)), SettleStep::GiveUp));
    assert!(matches!(o.wait_settled(true, 0, None), SettleStep::GiveUp));
    assert!(matches!(o.teardown_step(0, true), TeardownStep::Poll { harvest: true }));
    assert!(matches!(o.teardown_step(u64::MAX, false), TeardownStep::Finish { harvest: false }));
    assert_eq!(o.remaining(), 1);
}

const FEED_ORDER: [ProofType; 3] =
    [ProofType::Compressor, ProofType::Recursive2, ProofType::Recursive1];

fn k(ag: usize, air: usize, t: ProofType) -> Key {
    (ag, air, t)
}

#[test]
fn aggregation_flag_matches_c() {
    assert!(is_aggregation(ProofType::Recursive1));
    assert!(is_aggregation(ProofType::Recursive2));
    assert!(!is_aggregation(ProofType::Compressor));
}

#[test]
fn recursive_order_is_rec2_then_rec1() {
    assert_eq!(RECURSIVE_ORDER, [ProofType::Recursive2, ProofType::Recursive1]);
}

#[test]
fn candidates_prefer_bigger_backlog_within_type() {
    let ready = vec![(k(0, 5, ProofType::Recursive1), 2), (k(0, 2, ProofType::Recursive1), 9)];
    let out = candidate_keys(&ready, &FEED_ORDER);
    assert_eq!(out, vec![k(0, 2, ProofType::Recursive1), k(0, 5, ProofType::Recursive1)]);
}

#[test]
fn candidates_respect_type_priority() {
    let ready = vec![
        (k(0, 1, ProofType::Recursive1), 5),
        (k(0, 2, ProofType::Compressor), 1),
        (k(0, 3, ProofType::Recursive2), 1),
    ];
    let out = candidate_keys(&ready, &FEED_ORDER);
    assert_eq!(
        out,
        vec![
            k(0, 2, ProofType::Compressor),
            k(0, 3, ProofType::Recursive2),
            k(0, 1, ProofType::Recursive1),
        ]
    );
}

#[test]
fn candidates_recursive_order_drops_compressor() {
    let ready = vec![(k(0, 2, ProofType::Compressor), 9), (k(0, 1, ProofType::Recursive1), 1)];
    let out = candidate_keys(&ready, &RECURSIVE_ORDER);
    assert_eq!(out, vec![k(0, 1, ProofType::Recursive1)]);
}

#[test]
fn candidates_tie_break_by_airgroup_air() {
    let ready = vec![(k(0, 7, ProofType::Recursive1), 3), (k(0, 2, ProofType::Recursive1), 3)];
    let out = candidate_keys(&ready, &FEED_ORDER);
    assert_eq!(out, vec![k(0, 2, ProofType::Recursive1), k(0, 7, ProofType::Recursive1)]);
}

/// A witness as the hand-off builds it, in a buffer that names it.
fn witness(t: ProofType, global_idx: usize) -> Witness {
    Witness {
        proof_type: t,
        airgroup_id: 0,
        air_id: 0,
        global_idx: Some(global_idx),
        circom_witness: vec![global_idx as u64; if t == ProofType::Compressor { 4 } else { 8 }],
    }
}

#[test]
fn drain_all_takes_everything_and_leaves_the_scheduler_empty() {
    let mut s = RecursiveScheduler::new();
    s.push(witness(ProofType::Compressor, 0));
    s.push(witness(ProofType::Recursive1, 1));
    s.push(witness(ProofType::Recursive2, 2));
    s.push_basic(10, 0, 0, false);
    s.push_basic(11, 0, 1, true);

    let (witnesses, basics) = s.drain_all();
    assert_eq!(witnesses.len(), 3);
    assert_eq!(basics.len(), 2);
    assert!(s.is_empty() && s.basic_is_empty(), "drain must leave nothing behind");

    // A second drain is a no-op, so a double teardown can't double-return a buffer.
    let (w2, b2) = s.drain_all();
    assert!(w2.is_empty() && b2.is_empty());

    let mut owner = DeviceCompletions::new().acquire().unwrap();
    assert_eq!(recover_drained_witnesses(witnesses, owner.ledger()).len(), 3);
}

#[test]
fn recovery_returns_compressor_buffers_to_the_compressor_pool() {
    let mut s = RecursiveScheduler::new();
    s.push(witness(ProofType::Compressor, 0));
    s.push(witness(ProofType::Compressor, 1));
    let (witnesses, _) = s.drain_all();

    let mut owner = DeviceCompletions::new().acquire().unwrap();
    let returned = recover_drained_witnesses(witnesses, owner.ledger());
    assert_eq!(returned.len(), 2);
    assert!(returned.iter().all(|b| b.compressor));
    assert_eq!(returned[0].buffer, vec![0; 4]);
    assert_eq!(returned[1].buffer, vec![1; 4]);
}

#[test]
fn recovery_settles_the_units_armed_at_hand_off() {
    let mut owner = DeviceCompletions::new().acquire().unwrap();
    let ledger = owner.ledger();

    let mut s = RecursiveScheduler::new();
    for (t, idx) in
        [(ProofType::Compressor, 0usize), (ProofType::Recursive1, 1), (ProofType::Recursive2, 2)]
    {
        arm_committed(ledger, idx as u64, t.as_usize());
        s.push(witness(t, idx));
    }
    assert_eq!(ledger.remaining(), 3);

    let (witnesses, _) = s.drain_all();
    let returned = recover_drained_witnesses(witnesses, ledger);
    assert_eq!(ledger.remaining(), 0, "a drained witness's unit must not stay outstanding");
    assert_eq!(returned.iter().filter(|b| b.compressor).count(), 1);
    assert_eq!(returned.iter().filter(|b| !b.compressor && b.buffer.len() == 8).count(), 2);
}

#[test]
fn recovery_does_not_settle_a_unit_it_does_not_own() {
    let mut owner = DeviceCompletions::new().acquire().unwrap();
    let ledger = owner.ledger();
    arm_committed(ledger, 7, ProofType::Basic.as_usize());
    arm_committed(ledger, 7, ProofType::Compressor.as_usize());
    assert_eq!(ledger.remaining(), 2);

    let mut s = RecursiveScheduler::new();
    s.push(witness(ProofType::Compressor, 7));
    let (witnesses, _) = s.drain_all();
    recover_drained_witnesses(witnesses, ledger);

    assert_eq!(ledger.remaining(), 1, "only the compressor unit settles");
    let basic = ledger.adopt(7, ProofType::Basic.as_usize());
    basic.release(ledger); // the basic unit is still the one left
    assert_eq!(ledger.remaining(), 0);
}

#[test]
fn a_witness_without_a_global_idx_still_returns_its_buffer() {
    let mut s = RecursiveScheduler::new();
    s.push(Witness {
        proof_type: ProofType::Recursive1,
        airgroup_id: 0,
        air_id: 0,
        global_idx: None,
        circom_witness: vec![9; 8],
    });
    let (witnesses, _) = s.drain_all();
    let mut owner = DeviceCompletions::new().acquire().unwrap();
    let returned = recover_drained_witnesses(witnesses, owner.ledger());
    assert_eq!(returned.len(), 1);
    assert_eq!(returned[0].buffer, vec![9; 8]);
    assert!(!returned[0].compressor);
}

#[test]
fn ledger_kind_spellings_agree() {
    for (t, discriminant) in [
        (ProofType::Basic, ProofType::Basic as usize),
        (ProofType::Compressor, ProofType::Compressor as usize),
        (ProofType::Recursive1, ProofType::Recursive1 as usize),
        (ProofType::Recursive2, ProofType::Recursive2 as usize),
        (ProofType::VadcopFinal, ProofType::VadcopFinal as usize),
        (ProofType::VadcopFinalCompressed, ProofType::VadcopFinalCompressed as usize),
        (ProofType::RecursiveF, ProofType::RecursiveF as usize),
        (ProofType::RecurserAggregator, ProofType::RecurserAggregator as usize),
    ] {
        assert_eq!(t.as_usize(), discriminant, "as_usize() must match `{t:?} as usize`");
    }
}

#[test]
fn a_stream_that_holds_the_key_is_tried_first() {
    let mut s = RecursiveScheduler::new();
    s.push(witness(ProofType::Recursive1, 1));
    s.push(witness(ProofType::Recursive1, 2));
    let key = k(0, 0, ProofType::Recursive1);
    let first = s.next_recursive();
    assert!(matches!(first[0], Attempt::Best { key: x } if x == key));
    let pick = s.accept(first[0], 4);
    let WorkerPick::Recursive(w, mut reservation) = pick else { panic!("a witness was queued") };
    assert_eq!(w.global_idx, Some(1));
    assert_eq!(reservation.stream_id(), 4);
    reservation.commit();
    assert_eq!(reservation.release(), None);
    let second = s.next_recursive();
    assert!(matches!(second[0], Attempt::Reuse { key: x, stream: 4 } if x == key));
}

#[test]
fn an_abandoned_reservation_hands_its_stream_back() {
    assert_eq!(StreamReservation::new(3).release(), Some(3));
}

#[test]
fn stored_instances_wait_behind_compressors() {
    let mut s = RecursiveScheduler::new();
    s.push_basic(10, 0, 1, false);
    s.push(witness(ProofType::Compressor, 0));
    s.push(witness(ProofType::Recursive2, 1));
    let attempts = s.next_nonrecursive();
    let kinds: Vec<ProofType> = attempts
        .iter()
        .filter_map(|a| if let Attempt::Best { key } = a { Some(key.2) } else { None })
        .collect();
    let at = |t: ProofType| kinds.iter().position(|&x| x == t).unwrap();
    assert!(at(ProofType::Compressor) < at(ProofType::Basic));
    assert!(at(ProofType::Basic) < at(ProofType::Recursive2));
}

// (airgroup, air, is_stored, has_compressor, proof_cost)
fn sort_ids(items: &[(usize, usize, bool, bool, u64)]) -> Vec<usize> {
    let mut ids: Vec<usize> = (0..items.len()).collect();
    ids.sort_by_key(|&i| {
        let (ag, air, st, hc, cost) = items[i];
        schedule_key(ag, air, st, hc, cost)
    });
    ids
}

#[test]
fn priority_tier_orders_stored_and_compressor_first() {
    // tiers: (stored+comp)=0, (stored)=1, (comp)=2, (neither)=3
    let items = [
        (9, 0, false, false, 100), // tier 3
        (8, 0, true, true, 100),   // tier 0
        (7, 0, false, true, 100),  // tier 2
        (6, 0, true, false, 100),  // tier 1
    ];
    let tiers: Vec<u8> = sort_ids(&items)
        .iter()
        .map(|&i| schedule_key(items[i].0, items[i].1, items[i].2, items[i].3, items[i].4).0)
        .collect();
    assert_eq!(tiers, vec![0, 1, 2, 3]);
}

#[test]
fn lpt_orders_heavier_group_first_within_tier() {
    // Same tier (neither stored nor compressor); heavier proof_cost must come first.
    let items = [(0, 0, false, false, 50), (0, 1, false, false, 500)];
    let ordered = sort_ids(&items);
    assert_eq!(ordered, vec![1, 0]); // air (0,1) cost 500 before (0,0) cost 50
}

#[test]
fn key_is_reverse_on_cost() {
    // Guards the LPT direction explicitly.
    let hi = schedule_key(0, 0, false, false, 500);
    let lo = schedule_key(0, 0, false, false, 50);
    assert!(hi < lo); // higher cost sorts earlier
    assert_eq!(hi.1, Reverse(500));
}
