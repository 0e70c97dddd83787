//! Completion accounting: which units of work are outstanding, who owes their settlement, and
//! who may receive completions.
//!
//! A unit is an id and a kind, because a basic proof and the recursive proof made from it share
//! their id. Settling a unit that is not outstanding changes nothing, so a late or repeated
//! completion neither counts twice nor takes the count below zero.
use vstd::prelude::*;

verus! {

/// One outstanding unit: id and kind of proof.
pub type UnitKey = (u64, usize);

/// How long teardown waits for outstanding units, in nanoseconds.
pub const DRAIN_BUDGET_NANOS: u64 = 5_000_000_000;

/// How long taking the capability waits before it warns, in nanoseconds.
pub const SLOT_WAIT_WARN_NANOS: u64 = 10_000_000_000;

/// The units outstanding in one epoch.
#[derive(Debug)]
pub struct Ledger {
    epoch: u64,
    outstanding: Vec<UnitKey>,
}

/// A guard for one unit. Releasing it settles the unit, unless the work was launched and its
/// completion settles it instead.
#[derive(Debug)]
#[must_use]
pub struct ProofToken {
    key: UnitKey,
    armed: bool,
}

impl ProofToken {
    /// The unit.
    pub closed spec fn unit(&self) -> UnitKey {
        self.key
    }

    /// The guard owes the settlement.
    pub closed spec fn is_armed(&self) -> bool {
        self.armed
    }

    /// The work was launched: its completion settles the unit.
    pub fn commit(&mut self)
        ensures
            !final(self).is_armed(),
            final(self).unit() == old(self).unit(),
    {
        self.armed = false;
    }

    /// The id of the unit.
    pub fn id(&self) -> (r: u64)
        ensures
            r == self.unit().0,
    {
        self.key.0
    }

    /// Give the guard up, settling its unit where the guard owes that. Returns whether waiters
    /// are to be woken.
    pub fn release(self, ledger: &mut Ledger) -> (r: bool)
        requires
            old(ledger).wf(),
        ensures
            final(ledger).wf(),
            final(ledger).number() == old(ledger).number(),
            final(ledger).units() == if self.is_armed() {
                old(ledger).units().remove(self.unit())
            } else {
                old(ledger).units()
            },
            r == (self.is_armed() && old(ledger).units().contains(self.unit()) && final(ledger).units().len() == 0),
    {
        if self.armed {
            ledger.settle(self.key.0, self.key.1)
        } else {
            false
        }
    }
}

/// What to do next in a wait for all units to settle.
#[derive(Clone, Copy, PartialEq, Eq, Structural, Debug)]
pub enum SettleStep {
    /// Every unit has settled.
    Settled,
    /// The job was cancelled, or the time is up.
    GiveUp,
    /// Pump the streams, wait a moment and look again.
    Pump,
}

impl Ledger {
    /// No unit is listed twice.
    pub closed spec fn wf(&self) -> bool {
        self.outstanding@.no_duplicates()
    }

    /// The outstanding units.
    pub closed spec fn units(&self) -> Set<UnitKey> {
        self.outstanding@.to_set()
    }

    /// The number of the epoch.
    pub closed spec fn number(&self) -> u64 {
        self.epoch
    }

    /// A ledger without units.
    pub fn new(epoch: u64) -> (r: Self)
        ensures
            r.wf(),
            r.number() == epoch,
            r.units() == Set::<UnitKey>::empty(),
    {
        let r = Ledger { epoch, outstanding: Vec::new() };
        assert(r.units() =~= Set::<UnitKey>::empty());
        r
    }

    /// The number of the epoch.
    pub fn epoch(&self) -> (r: u64)
        ensures
            r == self.number(),
    {
        self.epoch
    }

    /// How many units are outstanding.
    pub fn remaining(&self) -> (r: usize)
        requires
            self.wf(),
        ensures
            r == self.units().len(),
            self.units().finite(),
    {
        proof {
            self.outstanding@.unique_seq_to_set();
        }
        self.outstanding.len()
    }

    fn position(&self, id: u64, kind: usize) -> (r: Option<usize>)
        ensures
            match r {
                Some(i) => i < self.outstanding@.len() && self.outstanding@[i as int] == (id, kind)
                    && self.units().contains((id, kind)),
                None => !self.units().contains((id, kind)),
            },
    {
        let mut i: usize = 0;
        while i < self.outstanding.len()
            invariant
                i <= self.outstanding@.len(),
                forall|j: int| 0 <= j < i ==> self.outstanding@[j] != (id, kind),
            decreases self.outstanding@.len() - i,
        {
            if self.outstanding[i].0 == id && self.outstanding[i].1 == kind {
                assert(self.outstanding@.contains((id, kind)));
                return Some(i);
            }
            i = i + 1;
        }
        None
    }

    /// Record a unit as in flight, and return the guard that owes its settlement. A unit that is
    /// already outstanding is not counted again.
    pub fn arm(&mut self, id: u64, kind: usize) -> (r: ProofToken)
        requires
            old(self).wf(),
        ensures
            final(self).wf(),
            final(self).number() == old(self).number(),
            final(self).units() == old(self).units().insert((id, kind)),
            r.unit() == (id, kind),
            r.is_armed(),
    {
        let ghost before = self.outstanding@;
        match self.position(id, kind) {
            Some(_) => {
                assert(self.units() =~= old(self).units().insert((id, kind)));
            },
            None => {
                self.outstanding.push((id, kind));
                proof {
                    assert(!before.contains((id, kind)));
                    assert(self.outstanding@.no_duplicates());
                    assert(self.units() =~= old(self).units().insert((id, kind))) by {
                        assert forall|x: UnitKey| #[trigger] self.outstanding@.contains(x)
                            <==> before.contains(x) || x == (id, kind) by {
                            if before.contains(x) {
                                let j = before.index_of(x);
                                assert(self.outstanding@[j] == x);
                            }
                            if x == (id, kind) {
                                assert(self.outstanding@[before.len() as int] == x);
                            }
                            if self.outstanding@.contains(x) && x != (id, kind) {
                                let j = self.outstanding@.index_of(x);
                                assert(before[j] == x);
                            }
                        }
                    }
                }
            },
        }
        ProofToken { key: (id, kind), armed: true }
    }

    /// Take over the settlement of a unit that is already outstanding; the units stay as they are.
    pub fn adopt(&self, id: u64, kind: usize) -> (r: ProofToken)
        ensures
            r.unit() == (id, kind),
            r.is_armed(),
    {
        ProofToken { key: (id, kind), armed: true }
    }

    /// Settle a unit; one that is not outstanding changes nothing. Returns whether waiters are to
    /// be woken: the last unit has settled.
    pub fn settle(&mut self, id: u64, kind: usize) -> (r: bool)
        requires
            old(self).wf(),
        ensures
            final(self).wf(),
            final(self).number() == old(self).number(),
            final(self).units() == old(self).units().remove((id, kind)),
            r == (old(self).units().contains((id, kind)) && final(self).units().len() == 0),
    {
        let ghost before = self.outstanding@;
        let ghost k: UnitKey = (id, kind);
        match self.position(id, kind) {
            None => {
                assert(self.units() =~= old(self).units().remove(k));
                false
            },
            Some(i) => {
                self.outstanding.swap_remove(i);
                proof {
                    let n = before.len() - 1;
                    let now = self.outstanding@;
                    assert forall|j: int| 0 <= j < n implies #[trigger] now[j] == if j == i {
                        before[n]
                    } else {
                        before[j]
                    } by {}
                    assert(now.no_duplicates());
                    assert forall|x: UnitKey| #[trigger] now.contains(x) <==> before.contains(x)
                        && x != k by {
                        if now.contains(x) {
                            let j = now.index_of(x);
                            assert(now[j] == x);
                            if j == i {
                                assert(before[n] == x);
                            } else {
                                assert(before[j] == x);
                            }
                        }
                        if before.contains(x) && x != k {
                            let j = before.index_of(x);
                            assert(before[j] == x);
                            if j == n {
                                assert(now[i as int] == x);
                            } else {
                                assert(now[j] == x);
                            }
                        }
                    }
                    assert(self.units() =~= old(self).units().remove(k));
                    now.unique_seq_to_set();
                }
                self.outstanding.len() == 0
            },
        }
    }

    /// The next step of a wait for all units to settle; times are nanoseconds.
    pub fn wait_settled(&self, cancelled: bool, elapsed: u64, timeout: Option<u64>) -> (r: SettleStep)
        requires
            self.wf(),
        ensures
            r == if self.units().len() == 0 {
                SettleStep::Settled
            } else if cancelled || (timeout matches Some(limit) && elapsed >= limit) {
                SettleStep::GiveUp
            } else {
                SettleStep::Pump
            },
    {
        if self.remaining() == 0 {
            return SettleStep::Settled;
        }
        if cancelled {
            return SettleStep::GiveUp;
        }
        if let Some(limit) = timeout {
            if elapsed >= limit {
                return SettleStep::GiveUp;
            }
        }
        SettleStep::Pump
    }
}

/// Arming twice is arming once; settling twice is settling once; settling what was never armed
/// changes nothing; and settling what was newly armed gives the units back as they were.
pub proof fn law_settling_is_idempotent(units: Set<UnitKey>, k: UnitKey)
    ensures
        units.insert(k).insert(k) == units.insert(k),
        units.remove(k).remove(k) == units.remove(k),
        !units.contains(k) ==> units.remove(k) == units,
        !units.contains(k) ==> units.insert(k).remove(k) == units,
{
    assert(units.insert(k).insert(k) =~= units.insert(k));
    assert(units.remove(k).remove(k) =~= units.remove(k));
    if !units.contains(k) {
        assert(units.remove(k) =~= units);
        assert(units.insert(k).remove(k) =~= units);
    }
}

/// The same id with another kind is another unit.
pub proof fn law_kinds_are_distinct(units: Set<UnitKey>, id: u64, a: usize, b: usize)
    requires
        a != b,
        units.contains((id, a)),
    ensures
        units.remove((id, b)).contains((id, a)),
        !units.contains((id, b)) ==> units.insert((id, b)).len() == units.len() + 1 || !units.finite(),
{
}

/// The right to receive completions, held by one owner at a time.
#[derive(Debug)]
pub struct DeviceCompletions {
    held: bool,
    next_epoch: u64,
}

/// The holder of that right for one epoch.
#[derive(Debug)]
pub struct CompletionOwner {
    ledger: Ledger,
}

impl Default for DeviceCompletions {
    fn default() -> (r: Self)
        ensures
            !r.is_held(),
            r.upcoming() == 1,
    {
        DeviceCompletions { held: false, next_epoch: 1 }
    }
}

impl DeviceCompletions {
    /// An owner exists.
    pub closed spec fn is_held(&self) -> bool {
        self.held
    }

    /// The epoch of the next owner.
    pub closed spec fn upcoming(&self) -> nat {
        self.next_epoch as nat
    }

    /// Nobody owns the right yet; the first epoch is one.
    pub fn new() -> (r: Self)
        ensures
            !r.is_held(),
            r.upcoming() == 1,
    {
        DeviceCompletions { held: false, next_epoch: 1 }
    }

    /// Take the right; `None` while another owner holds it.
    pub fn acquire(&mut self) -> (r: Option<CompletionOwner>)
        requires
            old(self).upcoming() < u64::MAX,
        ensures
            match r {
                Some(o) => {
                    &&& !old(self).is_held()
                    &&& final(self).is_held()
                    &&& final(self).upcoming() == old(self).upcoming() + 1
                    &&& o.wf()
                    &&& o.number() == old(self).upcoming()
                    &&& o.units() == Set::<UnitKey>::empty()
                },
                None => old(self).is_held() && *final(self) == *old(self),
            },
    {
        if self.held {
            return None;
        }
        let epoch: u64 = self.next_epoch;
        self.held = true;
        self.next_epoch = epoch + 1;
        Some(CompletionOwner { ledger: Ledger::new(epoch) })
    }

    /// Give the right back.
    pub fn release(&mut self, owner: CompletionOwner)
        ensures
            !final(self).is_held(),
            final(self).upcoming() == old(self).upcoming(),
    {
        self.held = false;
    }

    /// Whether a caller that has waited this long for the right is to be warned, once.
    pub fn warns_after(&self, elapsed: u64, warned: bool) -> (r: bool)
        ensures
            r == (self.is_held() && !warned && elapsed >= SLOT_WAIT_WARN_NANOS),
    {
        self.held && !warned && elapsed >= SLOT_WAIT_WARN_NANOS
    }
}

/// A step of the teardown of an owner.
#[derive(Clone, Copy, PartialEq, Eq, Structural, Debug)]
pub enum TeardownStep {
    /// Harvest without blocking where there is a device, wait a moment and look again.
    Poll { harvest: bool },
    /// Harvest what has completed where there is a device, then release the registration.
    Finish { harvest: bool },
}

impl CompletionOwner {
    /// The ledger is in order.
    pub closed spec fn wf(&self) -> bool {
        self.ledger.wf()
    }

    /// The number of the epoch.
    pub closed spec fn number(&self) -> u64 {
        self.ledger.number()
    }

    /// The outstanding units.
    pub closed spec fn units(&self) -> Set<UnitKey> {
        self.ledger.units()
    }

    /// The ledger, for arming, adopting and settling.
    pub fn ledger(&mut self) -> (r: &mut Ledger)
        ensures
            r.wf() == old(self).wf(),
            r.number() == old(self).number(),
            r.units() == old(self).units(),
            final(self).wf() == final(r).wf(),
            final(self).number() == final(r).number(),
            final(self).units() == final(r).units(),
    {
        &mut self.ledger
    }

    /// The number of the epoch.
    pub fn epoch(&self) -> (r: u64)
        ensures
            r == self.number(),
    {
        self.ledger.epoch()
    }

    /// How many units are outstanding.
    pub fn remaining(&self) -> (r: usize)
        requires
            self.wf(),
        ensures
            r == self.units().len(),
    {
        self.ledger.remaining()
    }

    /// The next step of a wait for all units to settle.
    pub fn wait_settled(&self, cancelled: bool, elapsed: u64, timeout: Option<u64>) -> (r: SettleStep)
        requires
            self.wf(),
        ensures
            r == if self.units().len() == 0 {
                SettleStep::Settled
            } else if cancelled || (timeout matches Some(limit) && elapsed >= limit) {
                SettleStep::GiveUp
            } else {
                SettleStep::Pump
            },
    {
        self.ledger.wait_settled(cancelled, elapsed, timeout)
    }

    /// The next step of the teardown: drain outstanding units while the budget lasts, and only
    /// then release the registration.
    pub fn teardown_step(&self, elapsed: u64, has_device: bool) -> (r: TeardownStep)
        requires
            self.wf(),
        ensures
            r == if self.units().len() > 0 && elapsed < DRAIN_BUDGET_NANOS {
                TeardownStep::Poll { harvest: has_device }
            } else {
                TeardownStep::Finish { harvest: has_device }
            },
    {
        if self.ledger.remaining() > 0 && elapsed < DRAIN_BUDGET_NANOS {
            TeardownStep::Poll { harvest: has_device }
        } else {
            TeardownStep::Finish { harvest: has_device }
        }
    }
}

} // verus!
