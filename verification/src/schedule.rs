use vstd::prelude::*;

use crate::bundle::FiberBundle;
use crate::connection::{kernel_is_function, lemma_flat_path, lemma_transport_deterministic};
use crate::error::FiberError;

verus! {

/// A scheduled assignment for one agent within a fiber bundle.
#[derive(Debug)]
pub struct AgentSchedule<T> {
    pub agent_id: String,
    pub time_slots: Vec<T>,
    pub fiber_states: Vec<Vec<T>>,
    pub priority: u32,
}

/// Build schedules for agents over a fiber bundle.
#[derive(Debug)]
pub struct ScheduleBuilder<T> {
    bundle: FiberBundle<T>,
    agent_ids: Vec<String>,
    priorities: Vec<u32>,
    initial_states: Vec<Vec<T>>,
}

impl<T> ScheduleBuilder<T> {
    /// One identifier, priority and initial state per registered agent; each
    /// initial state lies in the fiber.
    #[verifier::type_invariant]
    spec fn registration_consistent(self) -> bool {
        &&& self.priorities@.len() == self.agent_ids@.len()
        &&& self.initial_states@.len() == self.agent_ids@.len()
        &&& forall|k: int|
            0 <= k < self.initial_states@.len() ==> (#[trigger] self.initial_states@[k])@.len()
                == self.bundle.fiber_dim
    }

    /// The bundle the schedules are built over.
    pub closed spec fn spec_bundle(self) -> FiberBundle<T> {
        self.bundle
    }

    /// Identifiers of the registered agents, in registration order.
    pub closed spec fn spec_agent_ids(self) -> Seq<String> {
        self.agent_ids@
    }

    /// Priorities of the registered agents, in registration order.
    pub closed spec fn spec_priorities(self) -> Seq<u32> {
        self.priorities@
    }

    /// Initial fiber states of the registered agents, in registration order.
    pub closed spec fn spec_initial_states(self) -> Seq<Vec<T>> {
        self.initial_states@
    }

    /// Every registered agent has one identifier, one priority and one
    /// initial state, and each initial state has the fiber's dimension.
    pub open spec fn registration_agrees(self) -> bool {
        &&& self.spec_priorities().len() == self.spec_agent_ids().len()
        &&& self.spec_initial_states().len() == self.spec_agent_ids().len()
        &&& forall|k: int|
            0 <= k < self.spec_initial_states().len() ==> (#[trigger] self.spec_initial_states()[k])@.len()
                == self.spec_bundle().fiber_dim
    }

    /// `self` is `earlier` with exactly one more agent registered last.
    pub open spec fn extends(self, earlier: Self) -> bool {
        &&& self.spec_bundle() == earlier.spec_bundle()
        &&& self.spec_agent_ids().len() == earlier.spec_agent_ids().len() + 1
        &&& self.spec_agent_ids().drop_last() == earlier.spec_agent_ids()
        &&& self.spec_priorities().drop_last() == earlier.spec_priorities()
        &&& self.spec_initial_states().drop_last() == earlier.spec_initial_states()
        &&& self.registration_agrees()
        &&& earlier.registration_agrees()
    }

    /// Create a new schedule builder for the given bundle, with no agents.
    pub fn new(bundle: FiberBundle<T>) -> (b: Self)
        ensures
            b.registration_agrees(),
            b.spec_bundle() == bundle,
            b.spec_agent_ids().len() == 0,
            b.spec_priorities().len() == 0,
            b.spec_initial_states().len() == 0,
    {
        ScheduleBuilder { bundle, agent_ids: Vec::new(), priorities: Vec::new(), initial_states: Vec::new() }
    }

    /// The bundle the schedules are built over.
    pub fn bundle(&self) -> (b: &FiberBundle<T>)
        ensures
            *b == self.spec_bundle(),
            self.registration_agrees(),
    {
        proof {
            use_type_invariant(self);
        }
        &self.bundle
    }

    /// Number of registered agents.
    pub fn agent_count(&self) -> (n: usize)
        ensures
            n == self.spec_agent_ids().len(),
            self.registration_agrees(),
    {
        proof {
            use_type_invariant(self);
        }
        self.agent_ids.len()
    }

    /// Register an agent with initial state and priority.
    ///
    /// Fails, reporting the state's dimension, when the initial state does not
    /// have the fiber's dimension.
    pub fn add_agent(self, id: &str, initial_state: Vec<T>, priority: u32) -> (r: Result<Self, FiberError<T>>)
        ensures
            self.registration_agrees(),
            r matches Ok(b) ==> b.registration_agrees() && b.extends(self),
            initial_state@.len() != self.spec_bundle().fiber_dim ==> r == Err::<Self, FiberError<T>>(
                FiberError::InvalidFiberDimension(initial_state@.len() as usize)),
            initial_state@.len() == self.spec_bundle().fiber_dim ==> (r matches Ok(b) && {
                &&& b.spec_bundle() == self.spec_bundle()
                &&& b.spec_agent_ids().len() == self.spec_agent_ids().len() + 1
                &&& b.spec_agent_ids().drop_last() == self.spec_agent_ids()
                &&& b.spec_agent_ids().last()@ == id@
                &&& b.spec_priorities() == self.spec_priorities().push(priority)
                &&& b.spec_initial_states() == self.spec_initial_states().push(initial_state)
            }),
    {
        proof {
            use_type_invariant(&self);
        }
        if initial_state.len() != self.bundle.fiber_dim {
            return Err(FiberError::InvalidFiberDimension(initial_state.len()));
        }
        let ScheduleBuilder { bundle, mut agent_ids, mut priorities, mut initial_states } = self;
        let ghost old_ids = agent_ids@;
        let ghost old_states = initial_states@;
        agent_ids.push(id.to_owned());
        priorities.push(priority);
        initial_states.push(initial_state);
        proof {
            assert(agent_ids@.drop_last() == old_ids);
            assert(priorities@.drop_last() =~= self.priorities@);
            assert(initial_states@.drop_last() =~= old_states);
            assert forall|k: int|
                0 <= k < initial_states@.len() implies (#[trigger] initial_states@[k])@.len()
                    == bundle.fiber_dim by {
                if k < old_states.len() {
                    assert(initial_states@[k] == old_states[k]);
                }
            }
        }
        Ok(ScheduleBuilder { bundle, agent_ids, priorities, initial_states })
    }
}

impl<T: Copy> ScheduleBuilder<T> {
    /// `s` is the schedule of registered agent `k`: its identifier and
    /// priority, the bundle's timeline as time slots, and at each slot `i` the
    /// agent's initial state parallel-transported from base point 0 to `i`
    /// (unchanged when the connection is flat).
    pub open spec fn is_schedule_of<F: Fn(&Vec<Vec<T>>, &Vec<T>, bool) -> Vec<T>>(
        self,
        apply: F,
        k: int,
        s: AgentSchedule<T>,
    ) -> bool {
        &&& s.agent_id == self.spec_agent_ids()[k]
        &&& s.priority == self.spec_priorities()[k]
        &&& s.time_slots@ == self.spec_bundle().base_points@
        &&& s.fiber_states@.len() == self.spec_bundle().base_points@.len()
        &&& forall|i: int|
            0 <= i < s.fiber_states@.len() ==> self.spec_bundle().connection.transports_to(
                apply,
                self.spec_initial_states()[k]@,
                0,
                i,
                (#[trigger] s.fiber_states@[i])@,
            )
        &&& self.spec_bundle().connection.spec_is_flat() ==> forall|i: int|
            0 <= i < s.fiber_states@.len() ==> (#[trigger] s.fiber_states@[i])@ == self.spec_initial_states()[k]@
    }

    /// `schedules` holds one schedule per registered agent, highest priority
    /// first and ties in registration order.
    pub open spec fn builds<F: Fn(&Vec<Vec<T>>, &Vec<T>, bool) -> Vec<T>>(
        self,
        apply: F,
        schedules: Seq<AgentSchedule<T>>,
    ) -> bool {
        &&& schedules.len() == self.spec_agent_ids().len()
        &&& exists|order: Seq<usize>|
            is_priority_order(self.spec_priorities(), order) && forall|j: int|
                0 <= j < schedules.len() ==> self.is_schedule_of(apply, order[j] as int, #[trigger] schedules[j])
    }

    /// The connection does not reach the end of the timeline, so transporting
    /// along the whole timeline fails.
    pub open spec fn timeline_exceeds_connection(self) -> bool {
        self.spec_bundle().base_points@.len() > self.spec_bundle().connection.transport@.len() + 1
    }

    /// The error reported when the connection does not reach the end of the
    /// timeline: the first base point it does not cover.
    pub open spec fn uncovered_point_error(self) -> FiberError<T> {
        FiberError::IndexOutOfBounds {
            index: (self.spec_bundle().connection.transport@.len() + 1) as usize,
            len: self.spec_bundle().connection.point_count(),
        }
    }

    /// The schedule of registered agent `k`.
    fn schedule_for<F: Fn(&Vec<Vec<T>>, &Vec<T>, bool) -> Vec<T>>(&self, k: usize, apply: &F) -> (r: Result<
        AgentSchedule<T>,
        FiberError<T>,
    >)
        requires
            k < self.spec_agent_ids().len(),
            forall|m: &Vec<Vec<T>>, v: &Vec<T>, d: bool| call_requires(*apply, (m, v, d)),
        ensures
            self.timeline_exceeds_connection() ==> r == Err::<AgentSchedule<T>, FiberError<T>>(
                self.uncovered_point_error()),
            !self.timeline_exceeds_connection() ==> (r matches Ok(s) && self.is_schedule_of(*apply, k as int, s)),
    {
        proof {
            use_type_invariant(self);
        }
        let n = self.bundle.base_points.len();
        let segs = self.bundle.connection.transport.len();
        let init = &self.initial_states[k];
        let mut time_slots: Vec<T> = Vec::with_capacity(n);
        let mut fiber_states: Vec<Vec<T>> = Vec::with_capacity(n);
        let mut i: usize = 0;
        while i < n
            invariant
                forall|m: &Vec<Vec<T>>, v: &Vec<T>, d: bool| call_requires(*apply, (m, v, d)),
                n == self.spec_bundle().base_points@.len(),
                segs == self.spec_bundle().connection.transport@.len(),
                k < self.spec_initial_states().len(),
                *init == self.spec_initial_states()[k as int],
                i <= n,
                i <= segs + 1,
                time_slots@ == self.spec_bundle().base_points@.subrange(0, i as int),
                fiber_states@.len() == i,
                forall|j: int|
                    0 <= j < i ==> self.spec_bundle().connection.transports_to(
                        *apply,
                        init@,
                        0,
                        j,
                        (#[trigger] fiber_states@[j])@,
                    ),
                self.spec_bundle().connection.spec_is_flat() ==> forall|j: int|
                    0 <= j < i ==> (#[trigger] fiber_states@[j])@ == init@,
            decreases n - i,
        {
            time_slots.push(self.bundle.base_points[i]);
            let transported = self.bundle.transport(init, 0, i, apply);
            match transported {
                Ok(state) => {
                    proof {
                        if self.spec_bundle().connection.spec_is_flat() {
                            lemma_flat_path(self.spec_bundle().connection, 0, i as int);
                        }
                    }
                    fiber_states.push(state);
                },
                Err(e) => {
                    return Err(e);
                },
            }
            i = i + 1;
        }
        assert(time_slots@ =~= self.spec_bundle().base_points@);
        Ok(AgentSchedule {
            agent_id: self.agent_ids[k].clone(),
            time_slots,
            fiber_states,
            priority: self.priorities[k],
        })
    }

    /// Build schedules for all registered agents.
    ///
    /// Each agent is assigned to all base-space time slots, with its initial
    /// fiber state parallel-transported from the first base point along the
    /// timeline (`apply` applies a segment matrix to a state). The schedules
    /// come highest priority first; agents of equal priority keep their
    /// registration order.
    pub fn build<F: Fn(&Vec<Vec<T>>, &Vec<T>, bool) -> Vec<T>>(self, apply: &F) -> (r: Result<
        Vec<AgentSchedule<T>>,
        FiberError<T>,
    >)
        requires
            forall|m: &Vec<Vec<T>>, v: &Vec<T>, d: bool| call_requires(*apply, (m, v, d)),
        ensures
            self.registration_agrees(),
            self.spec_agent_ids().len() == 0 ==> r == Err::<Vec<AgentSchedule<T>>, FiberError<T>>(
                FiberError::NoAgents),
            self.spec_agent_ids().len() > 0 && self.timeline_exceeds_connection() ==> r == Err::<
                Vec<AgentSchedule<T>>,
                FiberError<T>,
            >(self.uncovered_point_error()),
            self.spec_agent_ids().len() > 0 && !self.timeline_exceeds_connection() ==> (r matches Ok(schedules)
                && self.builds(*apply, schedules@)),
    {
        proof {
            use_type_invariant(&self);
        }
        let n_agents = self.agent_ids.len();
        if n_agents == 0 {
            return Err(FiberError::NoAgents);
        }
        let order = priority_order(&self.priorities);
        let mut schedules: Vec<AgentSchedule<T>> = Vec::with_capacity(n_agents);
        let mut j: usize = 0;
        while j < n_agents
            invariant
                forall|m: &Vec<Vec<T>>, v: &Vec<T>, d: bool| call_requires(*apply, (m, v, d)),
                n_agents == self.spec_agent_ids().len(),
                n_agents > 0,
                self.registration_agrees(),
                is_priority_order(self.spec_priorities(), order@),
                self.spec_priorities().len() == n_agents,
                j <= n_agents,
                j > 0 ==> !self.timeline_exceeds_connection(),
                schedules@.len() == j,
                forall|q: int| 0 <= q < j ==> self.is_schedule_of(*apply, order@[q] as int, #[trigger] schedules@[q]),
            decreases n_agents - j,
        {
            let k = order[j];
            let s = self.schedule_for(k, apply)?;
            schedules.push(s);
            j = j + 1;
        }
        Ok(schedules)
    }
}

/// Agent `a` comes before agent `b` in a schedule list: a strictly higher
/// priority, or an equal priority and an earlier registration.
pub open spec fn ranks_before(priorities: Seq<u32>, a: usize, b: usize) -> bool {
    ||| priorities[a as int] > priorities[b as int]
    ||| priorities[a as int] == priorities[b as int] && a < b
}

/// `order` lists every agent index `0..priorities.len()` exactly once, higher
/// priorities first and, among equal priorities, in registration order (the
/// order a stable sort by descending priority gives).
pub open spec fn is_priority_order(priorities: Seq<u32>, order: Seq<usize>) -> bool {
    &&& order.len() == priorities.len()
    &&& forall|j: int| 0 <= j < order.len() ==> #[trigger] order[j] < priorities.len()
    &&& forall|k: usize| k < priorities.len() ==> #[trigger] order.contains(k)
    &&& forall|j: int, l: int|
        #![trigger order[j], order[l]]
        0 <= j < l < order.len() ==> ranks_before(priorities, order[j], order[l])
}

/// Inserting agent `i` into a priority order of the agents before it, after
/// exactly those of at least its priority, gives a priority order of the
/// agents up to `i`.
proof fn lemma_insert_keeps_priority_order(priorities: Seq<u32>, order: Seq<usize>, i: usize, pos: int)
    requires
        i < priorities.len(),
        order.len() == i,
        0 <= pos <= order.len(),
        forall|j: int| 0 <= j < order.len() ==> #[trigger] order[j] < i,
        forall|k: usize| k < i ==> #[trigger] order.contains(k),
        forall|j: int, l: int|
            #![trigger order[j], order[l]]
            0 <= j < l < order.len() ==> ranks_before(priorities, order[j], order[l]),
        forall|q: int| 0 <= q < pos ==> priorities[#[trigger] order[q] as int] >= priorities[i as int],
        pos < order.len() ==> priorities[order[pos] as int] < priorities[i as int],
    ensures
        ({
            let next = order.insert(pos, i);
            &&& next.len() == i + 1
            &&& forall|j: int| 0 <= j < next.len() ==> #[trigger] next[j] < i + 1
            &&& forall|k: usize| k < i + 1 ==> #[trigger] next.contains(k)
            &&& forall|j: int, l: int|
                #![trigger next[j], next[l]]
                0 <= j < l < next.len() ==> ranks_before(priorities, next[j], next[l])
        }),
{
    let next = order.insert(pos, i);
    order.insert_ensures(pos, i);
    assert forall|j: int| 0 <= j < next.len() implies #[trigger] next[j] < i + 1 by {
        if j < pos {
            assert(next[j] == order[j]);
        } else if j > pos {
            assert(next[j] == order[j - 1]);
        }
    }
    assert forall|k: usize| k < i + 1 implies #[trigger] next.contains(k) by {
        if k == i {
            assert(next[pos] == k);
        } else {
            assert(order.contains(k));
            let q = choose|q: int| 0 <= q < order.len() && order[q] == k;
            if q < pos {
                assert(next[q] == k);
            } else {
                assert(next[q + 1] == k);
            }
        }
    }
    assert forall|j: int, l: int|
        #![trigger next[j], next[l]]
        0 <= j < l < next.len() implies ranks_before(priorities, next[j], next[l]) by {
        if l < pos {
            assert(next[j] == order[j] && next[l] == order[l]);
        } else if l == pos {
            assert(next[j] == order[j]);
            assert(priorities[order[j] as int] >= priorities[i as int]);
        } else if j > pos {
            assert(next[j] == order[j - 1] && next[l] == order[l - 1]);
        } else if j == pos {
            assert(next[l] == order[l - 1]);
            if l - 1 > pos {
                assert(ranks_before(priorities, order[pos], order[l - 1]));
            }
        } else {
            assert(next[j] == order[j] && next[l] == order[l - 1]);
        }
    }
}

/// The schedule order is determined by the priorities alone: two lists that
/// both order the agents by descending priority, ties in registration order,
/// are the same list.
pub proof fn lemma_priority_order_unique(priorities: Seq<u32>, first: Seq<usize>, second: Seq<usize>)
    requires
        is_priority_order(priorities, first),
        is_priority_order(priorities, second),
    ensures
        first == second,
{
    lemma_priority_orders_agree_upto(priorities, first, second, first.len() as int);
    assert(first =~= second);
}

/// Two priority orders agree on their first `j` positions.
proof fn lemma_priority_orders_agree_upto(priorities: Seq<u32>, first: Seq<usize>, second: Seq<usize>, j: int)
    requires
        is_priority_order(priorities, first),
        is_priority_order(priorities, second),
        0 <= j <= first.len(),
    ensures
        forall|i: int| 0 <= i < j ==> first[i] == second[i],
    decreases j,
{
    if j > 0 {
        let i = j - 1;
        lemma_priority_orders_agree_upto(priorities, first, second, i);
        if first[i] != second[i] {
            let a = first[i];
            let b = second[i];
            assert(second.contains(a));
            let p = choose|p: int| 0 <= p < second.len() && second[p] == a;
            assert(first.contains(b));
            let q = choose|q: int| 0 <= q < first.len() && first[q] == b;
            if p < i {
                assert(first[p] == second[p]);
                assert(ranks_before(priorities, first[p], first[i]));
            }
            if q < i {
                assert(first[q] == second[q]);
                assert(ranks_before(priorities, second[q], second[i]));
            }
            assert(p > i && q > i);
            assert(ranks_before(priorities, second[i], second[p]));
            assert(ranks_before(priorities, first[i], first[q]));
        }
    }
}

/// A round-robin deal gives every slot to exactly one agent: slot `s` is in
/// the share of agent `s % n_agents` and in no other share.
pub proof fn lemma_round_robin_partition(n_agents: nat, n_slots: nat, shares: Seq<Seq<usize>>)
    requires
        n_agents > 0,
        shares.len() == n_agents,
        forall|a: int| 0 <= a < n_agents ==> is_round_robin_share(#[trigger] shares[a], n_agents, n_slots, a as nat),
    ensures
        forall|s: usize|
            s < n_slots ==> #[trigger] shares[(s as nat % n_agents) as int].contains(s),
        forall|s: usize, a: int|
            0 <= a < n_agents && #[trigger] shares[a].contains(s) ==> s < n_slots && a == s as nat % n_agents,
{
    assert forall|s: usize| s < n_slots implies #[trigger] shares[(s as nat % n_agents) as int].contains(s) by {
        let a = (s as nat % n_agents) as int;
        assert(is_round_robin_share(shares[a], n_agents, n_slots, a as nat));
    }
    assert forall|s: usize, a: int|
        0 <= a < n_agents && #[trigger] shares[a].contains(s) implies s < n_slots && a == s as nat % n_agents by {
        assert(is_round_robin_share(shares[a], n_agents, n_slots, a as nat));
    }
}

/// Two schedules with the same agent, priority, time slots and states.
pub open spec fn same_schedule<T>(a: AgentSchedule<T>, b: AgentSchedule<T>) -> bool {
    &&& a.agent_id == b.agent_id
    &&& a.priority == b.priority
    &&& a.time_slots@ == b.time_slots@
    &&& a.fiber_states@.len() == b.fiber_states@.len()
    &&& forall|i: int| 0 <= i < a.fiber_states@.len() ==> (#[trigger] a.fiber_states@[i])@ == b.fiber_states@[i]@
}

/// With a kernel that is a function of its arguments, every state of a
/// built schedule is the bundle's transport of the agent's initial state
/// from base point 0 to that slot: the result `FiberBundle::transport` gives.
pub proof fn lemma_schedule_state_is_transport<T: Copy, F: Fn(&Vec<Vec<T>>, &Vec<T>, bool) -> Vec<T>>(
    builder: ScheduleBuilder<T>,
    apply: F,
    k: int,
    schedule: AgentSchedule<T>,
    i: int,
    transported: Seq<T>,
)
    requires
        kernel_is_function(apply),
        builder.is_schedule_of(apply, k, schedule),
        0 <= i < schedule.fiber_states@.len(),
        builder.spec_bundle().connection.transports_to(
            apply,
            builder.spec_initial_states()[k]@,
            0,
            i,
            transported,
        ),
    ensures
        schedule.fiber_states@[i]@ == transported,
{
    assert(builder.spec_bundle().connection.transports_to(
        apply,
        builder.spec_initial_states()[k]@,
        0,
        i,
        schedule.fiber_states@[i]@,
    ));
    lemma_transport_deterministic(
        builder.spec_bundle().connection,
        apply,
        builder.spec_initial_states()[k]@,
        0,
        i,
        schedule.fiber_states@[i]@,
        transported,
    );
}

/// An earlier agent's schedule is the same whether built before or after
/// one more agent was registered.
proof fn lemma_earlier_agent_same_schedule<T: Copy, F: Fn(&Vec<Vec<T>>, &Vec<T>, bool) -> Vec<T>>(
    earlier: ScheduleBuilder<T>,
    later: ScheduleBuilder<T>,
    apply: F,
    k: int,
    before: AgentSchedule<T>,
    after: AgentSchedule<T>,
)
    requires
        kernel_is_function(apply),
        later.extends(earlier),
        0 <= k < earlier.spec_agent_ids().len(),
        earlier.is_schedule_of(apply, k, before),
        later.is_schedule_of(apply, k, after),
    ensures
        same_schedule(after, before),
{
    assert(later.spec_agent_ids()[k] == later.spec_agent_ids().drop_last()[k]);
    assert(later.spec_priorities()[k] == later.spec_priorities().drop_last()[k]);
    assert(later.spec_initial_states()[k] == later.spec_initial_states().drop_last()[k]);
    assert forall|i: int| 0 <= i < after.fiber_states@.len() implies (#[trigger] after.fiber_states@[i])@
        == before.fiber_states@[i]@ by {
        lemma_schedule_state_is_transport(earlier, apply, k, before, i, after.fiber_states@[i]@);
    }
}

/// Registering one more agent adds exactly one schedule: with a kernel that
/// is a function of its arguments, the schedules built after `add_agent` are
/// those built before, in the same order, with the new agent's schedule
/// inserted at one position.
pub proof fn lemma_add_agent_adds_one_schedule<T: Copy, F: Fn(&Vec<Vec<T>>, &Vec<T>, bool) -> Vec<T>>(
    earlier: ScheduleBuilder<T>,
    later: ScheduleBuilder<T>,
    apply: F,
    before: Seq<AgentSchedule<T>>,
    after: Seq<AgentSchedule<T>>,
)
    requires
        kernel_is_function(apply),
        later.extends(earlier),
        later.spec_agent_ids().len() <= usize::MAX,
        earlier.builds(apply, before),
        later.builds(apply, after),
    ensures
        after.len() == before.len() + 1,
        exists|pos: int|
            0 <= pos < after.len() && later.is_schedule_of(apply, earlier.spec_agent_ids().len() as int, after[pos])
                && (forall|j: int| 0 <= j < pos ==> same_schedule(#[trigger] after[j], before[j])) && (forall|j: int|
                pos < j < after.len() ==> same_schedule(#[trigger] after[j], before[j - 1])),
{
    let m = earlier.spec_agent_ids().len();
    let p1 = earlier.spec_priorities();
    let p2 = later.spec_priorities();
    let o1 = choose|order: Seq<usize>|
        is_priority_order(p1, order) && forall|j: int|
            0 <= j < before.len() ==> earlier.is_schedule_of(apply, order[j] as int, #[trigger] before[j]);
    let o2 = choose|order: Seq<usize>|
        is_priority_order(p2, order) && forall|j: int|
            0 <= j < after.len() ==> later.is_schedule_of(apply, order[j] as int, #[trigger] after[j]);
    assert(p2.len() == m + 1);
    assert(o2.contains(m as usize));
    let pos = choose|q: int| 0 <= q < o2.len() && o2[q] == m as usize;
    let rest = o2.remove(pos);
    o2.remove_ensures(pos);
    // the new agent occurs only at `pos`
    assert forall|j: int| 0 <= j < o2.len() && j != pos implies #[trigger] o2[j] != m as usize by {
        if j < pos {
            assert(ranks_before(p2, o2[j], o2[pos]));
        } else {
            assert(ranks_before(p2, o2[pos], o2[j]));
        }
    }
    assert forall|j: int| 0 <= j < rest.len() implies #[trigger] rest[j] < p1.len() by {
        if j < pos {
            assert(rest[j] == o2[j]);
        } else {
            assert(rest[j] == o2[j + 1]);
        }
    }
    assert forall|k: usize| k < p1.len() implies #[trigger] rest.contains(k) by {
        assert(o2.contains(k));
        let q = choose|q: int| 0 <= q < o2.len() && o2[q] == k;
        if q < pos {
            assert(rest[q] == k);
        } else {
            assert(q != pos);
            assert(rest[q - 1] == k);
        }
    }
    assert forall|j: int, l: int|
        #![trigger rest[j], rest[l]]
        0 <= j < l < rest.len() implies ranks_before(p1, rest[j], rest[l]) by {
        let jj = if j < pos { j } else { j + 1 };
        let ll = if l < pos { l } else { l + 1 };
        assert(rest[j] == o2[jj] && rest[l] == o2[ll]);
        assert(ranks_before(p2, o2[jj], o2[ll]));
        assert(p2[rest[j] as int] == p2.drop_last()[rest[j] as int]);
        assert(p2[rest[l] as int] == p2.drop_last()[rest[l] as int]);
    }
    assert(is_priority_order(p1, rest));
    lemma_priority_order_unique(p1, rest, o1);
    assert forall|j: int| 0 <= j < pos implies same_schedule(#[trigger] after[j], before[j]) by {
        assert(rest[j] == o2[j]);
        lemma_earlier_agent_same_schedule(earlier, later, apply, o1[j] as int, before[j], after[j]);
    }
    assert forall|j: int| pos < j < after.len() implies same_schedule(#[trigger] after[j], before[j - 1]) by {
        assert(rest[j - 1] == o2[j]);
        lemma_earlier_agent_same_schedule(earlier, later, apply, o1[j - 1] as int, before[j - 1], after[j]);
    }
    assert(later.is_schedule_of(apply, o2[pos] as int, after[pos]));
    assert(o2[pos] as int == m);
    assert(0 <= pos < after.len() && later.is_schedule_of(apply, m as int, after[pos]) && (forall|j: int|
        0 <= j < pos ==> same_schedule(#[trigger] after[j], before[j])) && (forall|j: int|
        pos < j < after.len() ==> same_schedule(#[trigger] after[j], before[j - 1])));
}

/// The agent indices `0..priorities.len()` ordered by descending priority,
/// ties kept in registration order.
pub fn priority_order(priorities: &Vec<u32>) -> (order: Vec<usize>)
    ensures
        is_priority_order(priorities@, order@),
{
    let n = priorities.len();
    let mut order: Vec<usize> = Vec::with_capacity(n);
    let mut i: usize = 0;
    while i < n
        invariant
            n == priorities@.len(),
            i <= n,
            order@.len() == i,
            forall|j: int| 0 <= j < order@.len() ==> #[trigger] order@[j] < i,
            forall|k: usize| k < i ==> #[trigger] order@.contains(k),
            forall|j: int, l: int|
                #![trigger order@[j], order@[l]]
                0 <= j < l < order@.len() ==> ranks_before(priorities@, order@[j], order@[l]),
        decreases n - i,
    {
        let p_i = priorities[i];
        let mut pos: usize = 0;
        while pos < order.len() && priorities[order[pos]] >= p_i
            invariant
                n == priorities@.len(),
                i < n,
                p_i == priorities@[i as int],
                pos <= order@.len(),
                forall|j: int| 0 <= j < order@.len() ==> #[trigger] order@[j] < i,
                forall|q: int| 0 <= q < pos ==> priorities@[#[trigger] order@[q] as int] >= p_i,
            decreases order@.len() - pos,
        {
            pos = pos + 1;
        }
        let ghost old_order = order@;
        order.insert(pos, i);
        proof {
            lemma_insert_keeps_priority_order(priorities@, old_order, i, pos as int);
        }
        i = i + 1;
    }
    order
}

/// The triangular dialogue loops of a timeline of `n_points` base points:
/// `[i, i + 1, i + 2, i]` for each `i` with `i + 2 < n_points`, in order.
pub fn triangle_loops(n_points: usize) -> (loops: Vec<Vec<usize>>)
    ensures
        n_points < 3 ==> loops@.len() == 0,
        n_points >= 3 ==> loops@.len() == n_points - 2,
        forall|i: int|
            0 <= i < loops@.len() ==> (#[trigger] loops@[i])@ == seq![
                i as usize,
                (i + 1) as usize,
                (i + 2) as usize,
                i as usize,
            ],
{
    let mut loops: Vec<Vec<usize>> = Vec::new();
    if n_points < 3 {
        return loops;
    }
    let mut i: usize = 0;
    while i < n_points - 2
        invariant
            n_points >= 3,
            i <= n_points - 2,
            loops@.len() == i,
            forall|j: int|
                0 <= j < i ==> (#[trigger] loops@[j])@ == seq![
                    j as usize,
                    (j + 1) as usize,
                    (j + 2) as usize,
                    j as usize,
                ],
        decreases n_points - 2 - i,
    {
        let tri = vec![i, i + 1, i + 2, i];
        loops.push(tri);
        i = i + 1;
    }
    loops
}

/// `slots` lists, in strictly increasing order, exactly the slots below
/// `n_slots` that a round-robin deal among `n_agents` agents gives to `agent`
/// (the slots `s` with `s % n_agents == agent`).
pub open spec fn is_round_robin_share(slots: Seq<usize>, n_agents: nat, n_slots: nat, agent: nat) -> bool {
    &&& forall|i: int, j: int| 0 <= i < j < slots.len() ==> slots[i] < slots[j]
    &&& forall|s: usize| #[trigger] slots.contains(s) <==> (s < n_slots && s as nat % n_agents == agent)
}

/// Simple schedule assignment: distribute `n_agents` across `n_slots` time
/// slots with minimal overlap.
///
/// Returns one entry `(agent, slots)` per agent, in agent order, where `slots`
/// are the slots `s < n_slots` with `s % n_agents == agent`, in increasing
/// order. With no agents or no slots the result is empty.
pub fn distribute_agents(n_agents: usize, n_slots: usize) -> (result: Vec<(usize, Vec<usize>)>)
    ensures
        (n_agents == 0 || n_slots == 0) ==> result@.len() == 0,
        (n_agents > 0 && n_slots > 0) ==> result@.len() == n_agents,
        forall|a: int|
            0 <= a < result@.len() ==> {
                &&& (#[trigger] result@[a]).0 == a
                &&& is_round_robin_share(result@[a].1@, n_agents as nat, n_slots as nat, a as nat)
            },
{
    if n_agents == 0 || n_slots == 0 {
        return Vec::new();
    }
    let mut result: Vec<(usize, Vec<usize>)> = Vec::with_capacity(n_agents);
    let mut agent: usize = 0;
    while agent < n_agents
        invariant
            0 < n_agents,
            agent <= n_agents,
            result@.len() == agent,
            forall|a: int|
                0 <= a < result@.len() ==> {
                    &&& (#[trigger] result@[a]).0 == a
                    &&& is_round_robin_share(result@[a].1@, n_agents as nat, n_slots as nat, a as nat)
                },
        decreases n_agents - agent,
    {
        let mut slots: Vec<usize> = Vec::new();
        let mut s: usize = 0;
        while s < n_slots
            invariant
                0 < n_agents,
                agent < n_agents,
                s <= n_slots,
                forall|i: int, j: int| 0 <= i < j < slots@.len() ==> slots@[i] < slots@[j],
                forall|i: int| 0 <= i < slots@.len() ==> slots@[i] < s,
                forall|x: usize| #[trigger] slots@.contains(x) <==> (x < s && x as nat % n_agents as nat == agent as nat),
            decreases n_slots - s,
        {
            let ghost before = slots@;
            if s % n_agents == agent {
                slots.push(s);
            }
            assert forall|x: usize| #[trigger] slots@.contains(x) <==> (x < s + 1 && x as nat % n_agents as nat == agent as nat) by {
                if s % n_agents == agent {
                    assert(slots@ == before.push(s));
                    if x == s {
                        assert(slots@[slots@.len() - 1] == x);
                    }
                    if slots@.contains(x) && x != s {
                        let k = choose|k: int| 0 <= k < slots@.len() && slots@[k] == x;
                        assert(before[k] == x);
                    }
                    if before.contains(x) {
                        let k = choose|k: int| 0 <= k < before.len() && before[k] == x;
                        assert(slots@[k] == x);
                    }
                } else {
                    assert(slots@ == before);
                }
            }
            s = s + 1;
        }
        result.push((agent, slots));
        agent = agent + 1;
    }
    result
}

} // verus!
