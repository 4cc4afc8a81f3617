use vstd::prelude::*;

use crate::error::FiberError;
use crate::schedule::AgentSchedule;

verus! {

/// Monitors timing drift of an agent against its scheduled time slots.
#[derive(Debug)]
pub struct DriftMonitor<T> {
    /// The expected schedule.
    pub schedule: AgentSchedule<T>,
    /// Actual execution times recorded for each slot.
    pub actual_times: Vec<T>,
    /// Maximum allowed drift before flagging a violation.
    pub tolerance: T,
}

impl<T: Copy + Default> DriftMonitor<T> {
    /// Create a new drift monitor for the given schedule, with every actual
    /// time set to `T`'s default value (zero for numbers).
    pub fn new(schedule: AgentSchedule<T>, tolerance: T) -> (m: Self)
        ensures
            m.schedule == schedule,
            m.tolerance == tolerance,
            m.actual_times@.len() == schedule.time_slots@.len(),
            forall|i: int| 0 <= i < m.actual_times@.len() ==> call_ensures(T::default, (), #[trigger] m.actual_times@[i]),
    {
        let n = schedule.time_slots.len();
        let zero = T::default();
        let mut actual_times: Vec<T> = Vec::with_capacity(n);
        let mut i: usize = 0;
        while i < n
            invariant
                i <= n,
                actual_times@.len() == i,
                call_ensures(T::default, (), zero),
                forall|j: int| 0 <= j < i ==> #[trigger] actual_times@[j] == zero,
            decreases n - i,
        {
            actual_times.push(zero);
            i = i + 1;
        }
        DriftMonitor { schedule, actual_times, tolerance }
    }
}

impl<T> DriftMonitor<T> {
    /// Record an actual execution time for the given slot index.
    ///
    /// Fails, leaving the monitor unchanged, when the slot is not in the
    /// schedule.
    pub fn record(&mut self, slot_idx: usize, actual_time: T) -> (r: Result<(), FiberError<T>>)
        requires
            slot_idx < old(self).schedule.time_slots@.len() ==> slot_idx < old(self).actual_times@.len(),
        ensures
            slot_idx >= old(self).schedule.time_slots@.len() ==> r == Err::<(), FiberError<T>>(
                (FiberError::IndexOutOfBounds { index: slot_idx, len: old(self).schedule.time_slots@.len() as usize }))
                && *final(self) == *old(self),
            slot_idx < old(self).schedule.time_slots@.len() ==> r is Ok && final(self).actual_times@ == old(
                self,
            ).actual_times@.update(slot_idx as int, actual_time) && final(self).schedule == old(self).schedule
                && final(self).tolerance == old(self).tolerance,
    {
        if slot_idx >= self.schedule.time_slots.len() {
            return Err(FiberError::IndexOutOfBounds { index: slot_idx, len: self.schedule.time_slots.len() });
        }
        self.actual_times.set(slot_idx, actual_time);
        Ok(())
    }

    /// Number of slots being monitored.
    pub fn slot_count(&self) -> (n: usize)
        ensures
            n == self.schedule.time_slots@.len(),
    {
        self.schedule.time_slots.len()
    }
}

impl<T: Copy> DriftMonitor<T> {
    /// Check the slots in order, given each slot's drift and whether it exceeds
    /// the tolerance, and report the first violation found.
    pub fn check_drifts(&self, drifts: &Vec<T>, exceeded: &Vec<bool>) -> (r: Result<(), FiberError<T>>)
        requires
            drifts@.len() == exceeded@.len(),
        ensures
            r is Ok <==> forall|i: int| 0 <= i < exceeded@.len() ==> !#[trigger] exceeded@[i],
            r matches Err(e) ==> exists|i: int|
                0 <= i < exceeded@.len() && exceeded@[i] && (forall|j: int| 0 <= j < i ==> !#[trigger] exceeded@[j])
                    && e == (FiberError::DriftExceeded {
                    drift: drifts@[i],
                    tolerance: self.tolerance,
                    agent_id: self.schedule.agent_id,
                }),
    {
        let mut i: usize = 0;
        while i < exceeded.len()
            invariant
                drifts@.len() == exceeded@.len(),
                i <= exceeded@.len(),
                forall|j: int| 0 <= j < i ==> !#[trigger] exceeded@[j],
            decreases exceeded@.len() - i,
        {
            if exceeded[i] {
                return Err(
                    FiberError::DriftExceeded {
                        drift: drifts[i],
                        tolerance: self.tolerance,
                        agent_id: self.schedule.agent_id.clone(),
                    },
                );
            }
            i = i + 1;
        }
        Ok(())
    }
}

/// `indices` lists, in increasing order, exactly the slots flagged in
/// `exceeded`.
pub open spec fn lists_violations(exceeded: Seq<bool>, indices: Seq<usize>) -> bool {
    &&& forall|i: int, j: int| 0 <= i < j < indices.len() ==> indices[i] < indices[j]
    &&& forall|s: usize| #[trigger] indices.contains(s) <==> (s < exceeded.len() && exceeded[s as int])
}

/// A monitor's check passes exactly when it finds no violation: given the
/// same per-slot flags, the violation list is empty if and only if no slot is
/// flagged (the condition under which `check_drifts` returns `Ok`).
pub proof fn lemma_check_passes_iff_no_violations(exceeded: Seq<bool>, indices: Seq<usize>)
    requires
        exceeded.len() <= usize::MAX,
        lists_violations(exceeded, indices),
    ensures
        indices.len() == 0 <==> forall|i: int| 0 <= i < exceeded.len() ==> !#[trigger] exceeded[i],
{
    if indices.len() > 0 {
        assert(indices.contains(indices[0]));
    }
    if exists|i: int| 0 <= i < exceeded.len() && exceeded[i] {
        let i = choose|i: int| 0 <= i < exceeded.len() && exceeded[i];
        assert(indices.contains(i as usize));
    }
}

/// Indices of the slots whose drift exceeds the tolerance, in increasing
/// order, given for each slot whether it does.
pub fn violation_indices(exceeded: &Vec<bool>) -> (r: Vec<usize>)
    ensures
        lists_violations(exceeded@, r@),
{
    let mut r: Vec<usize> = Vec::new();
    let mut i: usize = 0;
    while i < exceeded.len()
        invariant
            i <= exceeded@.len(),
            forall|a: int, b: int| 0 <= a < b < r@.len() ==> r@[a] < r@[b],
            forall|a: int| 0 <= a < r@.len() ==> r@[a] < i,
            forall|s: usize| #[trigger] r@.contains(s) <==> (s < i && exceeded@[s as int]),
        decreases exceeded@.len() - i,
    {
        let ghost before = r@;
        if exceeded[i] {
            r.push(i);
        }
        assert forall|s: usize| #[trigger] r@.contains(s) <==> (s < i + 1 && exceeded@[s as int]) by {
            if exceeded@[i as int] {
                assert(r@ == before.push(i));
                if s == i {
                    assert(r@[r@.len() - 1] == s);
                }
                if r@.contains(s) && s != i {
                    let k = choose|k: int| 0 <= k < r@.len() && r@[k] == s;
                    assert(before[k] == s);
                }
                if before.contains(s) {
                    let k = choose|k: int| 0 <= k < before.len() && before[k] == s;
                    assert(r@[k] == s);
                }
            } else {
                assert(r@ == before);
            }
        }
        i = i + 1;
    }
    r
}

} // verus!
