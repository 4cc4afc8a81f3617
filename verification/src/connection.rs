use vstd::prelude::*;

use crate::curvature::{default_square, is_default_square};
use crate::error::FiberError;

verus! {

/// The parallel transport across one segment of the timeline.
///
/// `Identity(n)` is the `n × n` identity (the transport of a flat segment);
/// `Matrix(m)` is an explicit transport matrix, stored row by row.
#[derive(Debug)]
pub enum Transport<T> {
    Identity(usize),
    Matrix(Vec<Vec<T>>),
}

impl<T> Transport<T> {
    /// Number of rows of this transport matrix.
    pub open spec fn rows(&self) -> nat {
        match self {
            Transport::Identity(n) => *n as nat,
            Transport::Matrix(m) => m@.len(),
        }
    }

    /// This transport matrix is `n × n`.
    pub open spec fn is_square_of(&self, n: nat) -> bool {
        match self {
            Transport::Identity(k) => *k as nat == n,
            Transport::Matrix(m) => m@.len() == n && forall|i: int| 0 <= i < m@.len() ==> (#[trigger] m@[i])@.len() == n,
        }
    }

    /// Whether this is the identity transport.
    pub fn is_identity(&self) -> (r: bool)
        ensures
            r == (self is Identity),
    {
        match self {
            Transport::Identity(_) => true,
            Transport::Matrix(_) => false,
        }
    }

    /// Whether this transport matrix is `n × n`.
    pub fn check_square(&self, n: usize) -> (r: bool)
        ensures
            r == self.is_square_of(n as nat),
            self matches Transport::Matrix(m) ==> (r <==> m@.len() == n && forall|i: int|
                0 <= i < m@.len() ==> (#[trigger] m@[i])@.len() == n),
            self matches Transport::Identity(d) ==> (r <==> d == n),
    {
        match self {
            Transport::Identity(k) => *k == n,
            Transport::Matrix(m) => {
                if m.len() != n {
                    return false;
                }
                let mut i: usize = 0;
                while i < m.len()
                    invariant
                        i <= m@.len(),
                        m@.len() == n,
                        *self == Transport::<T>::Matrix(*m),
                        forall|j: int| 0 <= j < i ==> (#[trigger] m@[j])@.len() == n,
                    decreases m@.len() - i,
                {
                    if m[i].len() != n {
                        assert(m@[i as int]@.len() != n);
                        return false;
                    }
                    i = i + 1;
                }
                true
            },
        }
    }

    /// Number of rows of this transport matrix.
    pub fn row_count(&self) -> (r: usize)
        ensures
            r as nat == self.rows(),
    {
        match self {
            Transport::Identity(n) => *n,
            Transport::Matrix(m) => m.len(),
        }
    }
}

/// Number of steps of the path from base index `from` to base index `to`.
pub open spec fn path_len(from: int, to: int) -> nat {
    if from <= to {
        (to - from) as nat
    } else {
        (from - to) as nat
    }
}

/// The segment crossed at step `k` of the path from `from` to `to`: going
/// forward, segment `from + k` (between points `from + k` and `from + k + 1`);
/// going backward, segment `from - 1 - k`.
pub open spec fn path_segment(from: int, to: int, k: int) -> int {
    if from <= to {
        from + k
    } else {
        from - 1 - k
    }
}

/// Ehresmann connection 1-form ω: `components[i][j]` is the (i, j) entry of
/// the Lie-algebra-valued form.
#[derive(Debug)]
pub struct ConnectionForm<T> {
    /// Matrix components of the connection form.
    pub components: Vec<Vec<T>>,
}

impl<T> ConnectionForm<T> {
    pub fn new(components: Vec<Vec<T>>) -> (c: Self)
        ensures
            c.components == components,
    {
        ConnectionForm { components }
    }

    /// Dimension of the form: its row count.
    pub fn dim(&self) -> (d: usize)
        ensures
            d == self.components@.len(),
    {
        self.components.len()
    }
}

impl<T: Default + Copy> ConnectionForm<T> {
    /// The zero form of dimension `n`: an `n × n` matrix of `T`'s default
    /// value.
    pub fn zero(n: usize) -> (c: Self)
        ensures
            is_default_square(c.components@, n as nat),
    {
        ConnectionForm { components: default_square(n) }
    }

    /// Exterior derivative dω. The form is constant along the base, so dω is
    /// the zero form of the same dimension whatever the step `_dx`.
    pub fn exterior_derivative(&self, _dx: T) -> (c: Self)
        ensures
            is_default_square(c.components@, self.components@.len()),
    {
        Self::zero(self.dim())
    }
}

/// A connection on the bundle: one transport per segment of the timeline.
///
/// Segment `k` joins base points `k` and `k + 1`; the connection covers
/// `transport.len() + 1` base points.
#[derive(Debug)]
pub struct Connection<T> {
    pub transport: Vec<Transport<T>>,
}

impl<T> Connection<T> {
    /// Number of base points the connection covers, as reported in index
    /// errors (`transport.len() + 1`, saturated at `usize::MAX`).
    pub open spec fn point_count(&self) -> usize {
        if self.transport@.len() < usize::MAX {
            (self.transport@.len() + 1) as usize
        } else {
            usize::MAX
        }
    }

    /// Every segment of the connection is the identity.
    pub open spec fn spec_is_flat(&self) -> bool {
        forall|k: int| 0 <= k < self.transport@.len() ==> #[trigger] self.transport@[k] is Identity
    }

    /// Every transport matrix of the connection is `n × n`.
    pub open spec fn fits_fiber(&self, n: nat) -> bool {
        forall|k: int| 0 <= k < self.transport@.len() ==> (#[trigger] self.transport@[k]).is_square_of(n)
    }

    /// The state `after` is a possible outcome of crossing segment `seg` in the
    /// given direction from `before`: unchanged across an identity segment,
    /// and an outcome of the kernel `apply` on the segment's matrix otherwise.
    pub open spec fn step_outcome<F: Fn(&Vec<Vec<T>>, &Vec<T>, bool) -> Vec<T>>(
        &self,
        apply: F,
        seg: int,
        forward: bool,
        before: Vec<T>,
        after: Vec<T>,
    ) -> bool {
        match self.transport@[seg] {
            Transport::Identity(_) => after@ == before@,
            Transport::Matrix(m) => call_ensures(apply, (&m, &before, forward), after),
        }
    }

    /// Step `k` of the path from `from` to `to` turns `before` into `after`.
    pub open spec fn step_at<F: Fn(&Vec<Vec<T>>, &Vec<T>, bool) -> Vec<T>>(
        &self,
        apply: F,
        from: int,
        to: int,
        k: int,
        before: Vec<T>,
        after: Vec<T>,
    ) -> bool {
        self.step_outcome(apply, path_segment(from, to, k), from <= to, before, after)
    }

    /// `trace` lists the states met along the path from `from` to `to`, one
    /// more than the number of steps, each obtained from the previous by
    /// crossing the next segment.
    pub open spec fn is_transport_trace<F: Fn(&Vec<Vec<T>>, &Vec<T>, bool) -> Vec<T>>(
        &self,
        apply: F,
        from: int,
        to: int,
        trace: Seq<Vec<T>>,
    ) -> bool {
        &&& trace.len() == path_len(from, to) + 1
        &&& forall|k: int|
            0 <= k < path_len(from, to) ==> #[trigger] self.step_at(apply, from, to, k, trace[k], trace[k + 1])
    }

    /// `result` is a parallel transport of `state` from base point `from` to
    /// base point `to`, the segment matrices being applied by `apply`.
    pub open spec fn transports_to<F: Fn(&Vec<Vec<T>>, &Vec<T>, bool) -> Vec<T>>(
        &self,
        apply: F,
        state: Seq<T>,
        from: int,
        to: int,
        result: Seq<T>,
    ) -> bool {
        exists|trace: Seq<Vec<T>>|
            #[trigger] self.is_transport_trace(apply, from, to, trace) && trace[0]@ == state
                && trace.last()@ == result
    }

    /// Every segment crossed between `from` and `to` is the identity.
    pub open spec fn path_is_flat(&self, from: int, to: int) -> bool {
        forall|k: int|
            0 <= k < path_len(from, to) ==> #[trigger] self.transport@[path_segment(from, to, k)] is Identity
    }

    /// The flat connection over `segments` segments: identity transport of
    /// dimension `fiber_dim` everywhere.
    pub fn flat(fiber_dim: usize, segments: usize) -> (c: Self)
        ensures
            c.transport@.len() == segments,
            forall|k: int| 0 <= k < segments ==> #[trigger] c.transport@[k] == Transport::<T>::Identity(fiber_dim),
            c.spec_is_flat(),
            c.fits_fiber(fiber_dim as nat),
    {
        let mut transport: Vec<Transport<T>> = Vec::with_capacity(segments);
        let mut k: usize = 0;
        while k < segments
            invariant
                k <= segments,
                transport@.len() == k,
                forall|j: int| 0 <= j < k ==> #[trigger] transport@[j] == Transport::<T>::Identity(fiber_dim),
            decreases segments - k,
        {
            transport.push(Transport::Identity(fiber_dim));
            k = k + 1;
        }
        Connection { transport }
    }

    /// A connection with the given transport matrix on each segment, in order.
    pub fn from_matrices(matrices: Vec<Vec<Vec<T>>>) -> (c: Self)
        ensures
            c.transport@.len() == matrices@.len(),
            forall|k: int| 0 <= k < matrices@.len() ==> #[trigger] c.transport@[k] == Transport::Matrix(matrices@[k]),
    {
        let ghost original = matrices@;
        let mut rest = matrices;
        let mut reversed: Vec<Vec<Vec<T>>> = Vec::new();
        while rest.len() > 0
            invariant
                rest@.len() + reversed@.len() == original.len(),
                rest@ == original.subrange(0, rest@.len() as int),
                forall|j: int| 0 <= j < reversed@.len() ==> #[trigger] reversed@[j] == original[original.len() - 1 - j],
            decreases rest@.len(),
        {
            let m = rest.pop().unwrap();
            reversed.push(m);
        }
        let mut transport: Vec<Transport<T>> = Vec::new();
        while reversed.len() > 0
            invariant
                reversed@.len() + transport@.len() == original.len(),
                forall|j: int| 0 <= j < reversed@.len() ==> #[trigger] reversed@[j] == original[original.len() - 1 - j],
                forall|j: int| 0 <= j < transport@.len() ==> #[trigger] transport@[j] == Transport::Matrix(original[j]),
            decreases reversed@.len(),
        {
            let m = reversed.pop().unwrap();
            transport.push(Transport::Matrix(m));
        }
        Connection { transport }
    }

    /// Number of segments.
    pub fn segments(&self) -> (r: usize)
        ensures
            r == self.transport@.len(),
    {
        self.transport.len()
    }

    /// Whether every segment is the identity.
    pub fn is_flat(&self) -> (r: bool)
        ensures
            r == self.spec_is_flat(),
    {
        let mut k: usize = 0;
        while k < self.transport.len()
            invariant
                k <= self.transport@.len(),
                forall|j: int| 0 <= j < k ==> #[trigger] self.transport@[j] is Identity,
            decreases self.transport@.len() - k,
        {
            if !self.transport[k].is_identity() {
                return false;
            }
            k = k + 1;
        }
        true
    }

    /// `states` lists the states met at the points of `path`, each obtained
    /// from the previous by parallel transport between consecutive points.
    pub open spec fn is_path_trace<F: Fn(&Vec<Vec<T>>, &Vec<T>, bool) -> Vec<T>>(
        &self,
        apply: F,
        path: Seq<usize>,
        states: Seq<Seq<T>>,
    ) -> bool {
        &&& states.len() == path.len()
        &&& forall|k: int|
            0 <= k < path.len() - 1 ==> #[trigger] self.transports_to(
                apply,
                states[k],
                path[k] as int,
                path[k + 1] as int,
                states[k + 1],
            )
    }

    /// `result` is a parallel transport of `state` along `path`, point by
    /// point.
    pub open spec fn transports_along<F: Fn(&Vec<Vec<T>>, &Vec<T>, bool) -> Vec<T>>(
        &self,
        apply: F,
        path: Seq<usize>,
        state: Seq<T>,
        result: Seq<T>,
    ) -> bool {
        exists|states: Seq<Seq<T>>|
            #[trigger] self.is_path_trace(apply, path, states) && states[0] == state && states.last() == result
    }

    /// The outcome of checking a loop path: too short below two points, not
    /// closed when it ends elsewhere than it starts, and out of bounds at its
    /// first point the connection does not cover.
    pub open spec fn loop_check(&self, loop_path: Seq<usize>) -> Result<(), FiberError<T>> {
        if loop_path.len() < 2 {
            Err(FiberError::LoopTooShort(loop_path.len() as usize))
        } else if loop_path[0] != loop_path.last() {
            Err(FiberError::LoopNotClosed { start: loop_path[0], end: loop_path.last() })
        } else if first_beyond(loop_path, self.transport@.len(), 0) < loop_path.len() {
            Err(
                FiberError::IndexOutOfBounds {
                    index: loop_path[first_beyond(loop_path, self.transport@.len(), 0)],
                    len: self.point_count(),
                },
            )
        } else {
            Ok(())
        }
    }

    /// Check that `loop_path` is a closed loop of base points of this
    /// connection: at least two points, ending where it starts, each point
    /// covered by the connection.
    pub fn validate_loop(&self, loop_path: &Vec<usize>) -> (r: Result<(), FiberError<T>>)
        ensures
            r == self.loop_check(loop_path@),
            r is Ok <==> loop_path@.len() >= 2 && loop_path@[0] == loop_path@.last() && forall|i: int|
                0 <= i < loop_path@.len() ==> #[trigger] loop_path@[i] <= self.transport@.len(),
    {
        let n = loop_path.len();
        if n < 2 {
            return Err(FiberError::LoopTooShort(n));
        }
        if loop_path[0] != loop_path[n - 1] {
            return Err(FiberError::LoopNotClosed { start: loop_path[0], end: loop_path[n - 1] });
        }
        let segs = self.transport.len();
        let mut i: usize = 0;
        while i < n
            invariant
                n == loop_path@.len(),
                n >= 2,
                loop_path@[0] == loop_path@.last(),
                segs == self.transport@.len(),
                i <= n,
                forall|j: int| 0 <= j < i ==> #[trigger] loop_path@[j] <= segs,
                first_beyond(loop_path@, segs as nat, 0) == first_beyond(loop_path@, segs as nat, i as int),
            decreases n - i,
        {
            if loop_path[i] > segs {
                return Err(FiberError::IndexOutOfBounds { index: loop_path[i], len: segs.saturating_add(1) });
            }
            i = i + 1;
        }
        Ok(())
    }
}

/// Index of the first point of `points`, at position `from` or later, beyond
/// `bound`; `points.len()` when there is none.
pub open spec fn first_beyond(points: Seq<usize>, bound: nat, from: int) -> int
    decreases points.len() - from,
{
    if from < 0 || from >= points.len() {
        points.len() as int
    } else if points[from] > bound {
        from
    } else {
        first_beyond(points, bound, from + 1)
    }
}

impl<T: Copy> Connection<T> {
    /// Parallel-transport `fiber_state` from base point `from` to base point
    /// `to`.
    ///
    /// Going forward the segments `from, ..., to - 1` are crossed in order;
    /// going backward the segments `from - 1, ..., to` are crossed, each by its
    /// inverse transport. Identity segments leave the state unchanged; across
    /// any other segment the state becomes `apply(matrix, state, forward)`, the
    /// kernel that multiplies by the matrix (or solves with it, backward).
    pub fn transport_vector<F: Fn(&Vec<Vec<T>>, &Vec<T>, bool) -> Vec<T>>(
        &self,
        fiber_state: &Vec<T>,
        from: usize,
        to: usize,
        apply: &F,
    ) -> (r: Result<Vec<T>, FiberError<T>>)
        requires
            forall|m: &Vec<Vec<T>>, v: &Vec<T>, d: bool| call_requires(*apply, (m, v, d)),
        ensures
            from > self.transport@.len() ==> r == Err::<Vec<T>, FiberError<T>>(
                (FiberError::IndexOutOfBounds { index: from, len: self.point_count() })),
            from <= self.transport@.len() < to ==> r == Err::<Vec<T>, FiberError<T>>(
                (FiberError::IndexOutOfBounds { index: to, len: self.point_count() })),
            from <= self.transport@.len() && to <= self.transport@.len() ==> r is Ok,
            r matches Ok(v) ==> self.transports_to(*apply, fiber_state@, from as int, to as int, v@),
            r matches Ok(v) ==> (self.path_is_flat(from as int, to as int) ==> v@ == fiber_state@),
    {
        let segs = self.transport.len();
        if from > segs {
            return Err(FiberError::IndexOutOfBounds { index: from, len: segs.saturating_add(1) });
        }
        if to > segs {
            return Err(FiberError::IndexOutOfBounds { index: to, len: segs.saturating_add(1) });
        }
        let forward = from <= to;
        let steps: usize = if forward { to - from } else { from - to };
        let mut cur: Vec<T> = Vec::with_capacity(fiber_state.len());
        let mut j: usize = 0;
        while j < fiber_state.len()
            invariant
                j <= fiber_state@.len(),
                cur@ == fiber_state@.subrange(0, j as int),
            decreases fiber_state@.len() - j,
        {
            cur.push(fiber_state[j]);
            j = j + 1;
        }
        let ghost mut trace: Seq<Vec<T>> = seq![cur];
        let mut k: usize = 0;
        while k < steps
            invariant
                forall|m: &Vec<Vec<T>>, v: &Vec<T>, d: bool| call_requires(*apply, (m, v, d)),
                segs == self.transport@.len(),
                from <= segs,
                to <= segs,
                forward == (from <= to),
                steps == path_len(from as int, to as int),
                k <= steps,
                trace.len() == k + 1,
                trace[0]@ == fiber_state@,
                trace.last() == cur,
                forall|i: int|
                    0 <= i < k ==> #[trigger] self.step_at(*apply, from as int, to as int, i, trace[i], trace[i + 1]),
                (forall|i: int|
                    0 <= i < k ==> #[trigger] self.transport@[path_segment(from as int, to as int, i)] is Identity)
                    ==> cur@ == fiber_state@,
            decreases steps - k,
        {
            let seg: usize = if forward { from + k } else { from - 1 - k };
            let ghost before = cur;
            let next = match &self.transport[seg] {
                Transport::Identity(_) => cur,
                Transport::Matrix(m) => apply(m, &cur, forward),
            };
            cur = next;
            proof {
                assert(self.step_at(*apply, from as int, to as int, k as int, before, cur));
                let old_trace = trace;
                trace = trace.push(cur);
                assert forall|i: int|
                    0 <= i < k + 1 implies #[trigger] self.step_at(*apply, from as int, to as int, i, trace[i], trace[i + 1]) by {
                    if i < k {
                        assert(trace[i] == old_trace[i]);
                        assert(trace[i + 1] == old_trace[i + 1]);
                    }
                }
                if forall|i: int|
                    0 <= i < k + 1 ==> #[trigger] self.transport@[path_segment(from as int, to as int, i)] is Identity {
                    assert(self.transport@[path_segment(from as int, to as int, k as int)] is Identity);
                }
            }
            k = k + 1;
        }
        proof {
            assert(self.is_transport_trace(*apply, from as int, to as int, trace));
            if self.path_is_flat(from as int, to as int) {
                assert forall|i: int| 0 <= i < k implies #[trigger] self.transport@[path_segment(from as int, to as int, i)] is Identity by {
                    assert(self.transport@[path_segment(from as int, to as int, i)] is Identity);
                }
            }
        }
        Ok(cur)
    }

    /// Parallel-transport `fiber_state` around the closed loop `loop_path`,
    /// from each point to the next: the action of the loop's holonomy on the
    /// state. Fails as `validate_loop` does on an invalid loop.
    pub fn transport_around<F: Fn(&Vec<Vec<T>>, &Vec<T>, bool) -> Vec<T>>(
        &self,
        fiber_state: &Vec<T>,
        loop_path: &Vec<usize>,
        apply: &F,
    ) -> (r: Result<Vec<T>, FiberError<T>>)
        requires
            forall|m: &Vec<Vec<T>>, v: &Vec<T>, d: bool| call_requires(*apply, (m, v, d)),
        ensures
            self.loop_check(loop_path@) matches Err(e) ==> r == Err::<Vec<T>, FiberError<T>>(e),
            self.loop_check(loop_path@) is Ok ==> (r matches Ok(v) && self.transports_along(
                *apply,
                loop_path@,
                fiber_state@,
                v@,
            )),
            r matches Ok(v) ==> (self.spec_is_flat() ==> v@ == fiber_state@),
    {
        self.validate_loop(loop_path)?;
        let n = loop_path.len();
        let segs = self.transport.len();
        let mut cur: Vec<T> = Vec::with_capacity(fiber_state.len());
        let mut j: usize = 0;
        while j < fiber_state.len()
            invariant
                j <= fiber_state@.len(),
                cur@ == fiber_state@.subrange(0, j as int),
            decreases fiber_state@.len() - j,
        {
            cur.push(fiber_state[j]);
            j = j + 1;
        }
        assert(cur@ =~= fiber_state@);
        let ghost mut states: Seq<Seq<T>> = seq![cur@];
        let mut k: usize = 0;
        while k + 1 < n
            invariant
                forall|m: &Vec<Vec<T>>, v: &Vec<T>, d: bool| call_requires(*apply, (m, v, d)),
                n == loop_path@.len(),
                n >= 2,
                segs == self.transport@.len(),
                forall|i: int| 0 <= i < n ==> #[trigger] loop_path@[i] <= segs,
                k + 1 <= n,
                states.len() == k + 1,
                states[0] == fiber_state@,
                states.last() == cur@,
                forall|i: int|
                    0 <= i < k ==> #[trigger] self.transports_to(
                        *apply,
                        states[i],
                        loop_path@[i] as int,
                        loop_path@[i + 1] as int,
                        states[i + 1],
                    ),
                self.spec_is_flat() ==> cur@ == fiber_state@,
            decreases n - k,
        {
            let a = loop_path[k];
            let b = loop_path[k + 1];
            proof {
                if self.spec_is_flat() {
                    lemma_flat_path(*self, a as int, b as int);
                }
            }
            let next = self.transport_vector(&cur, a, b, apply)?;
            proof {
                let before = states;
                states = states.push(next@);
                assert forall|i: int|
                    0 <= i < k + 1 implies #[trigger] self.transports_to(
                        *apply,
                        states[i],
                        loop_path@[i] as int,
                        loop_path@[i + 1] as int,
                        states[i + 1],
                    ) by {
                    if i < k {
                        assert(states[i] == before[i] && states[i + 1] == before[i + 1]);
                    }
                }
            }
            cur = next;
            k = k + 1;
        }
        proof {
            assert(self.is_path_trace(*apply, loop_path@, states));
        }
        Ok(cur)
    }
}

/// Parallel transport along a flat connection is the identity: whatever
/// kernel applies the (absent) matrices, transporting a state between any two
/// covered base points gives the state back.
pub proof fn lemma_flat_transport_is_identity<T, F: Fn(&Vec<Vec<T>>, &Vec<T>, bool) -> Vec<T>>(
    connection: Connection<T>,
    apply: F,
    state: Seq<T>,
    from: int,
    to: int,
    result: Seq<T>,
)
    requires
        connection.spec_is_flat(),
        0 <= from <= connection.transport@.len(),
        0 <= to <= connection.transport@.len(),
        connection.transports_to(apply, state, from, to, result),
    ensures
        result == state,
{
    let trace = choose|trace: Seq<Vec<T>>|
        #[trigger] connection.is_transport_trace(apply, from, to, trace) && trace[0]@ == state
            && trace.last()@ == result;
    lemma_flat_trace_constant(connection, apply, from, to, trace, path_len(from, to) as int);
}

/// Every state of a transport trace along a flat connection equals the first.
proof fn lemma_flat_trace_constant<T, F: Fn(&Vec<Vec<T>>, &Vec<T>, bool) -> Vec<T>>(
    connection: Connection<T>,
    apply: F,
    from: int,
    to: int,
    trace: Seq<Vec<T>>,
    k: int,
)
    requires
        connection.spec_is_flat(),
        0 <= from <= connection.transport@.len(),
        0 <= to <= connection.transport@.len(),
        connection.is_transport_trace(apply, from, to, trace),
        0 <= k <= path_len(from, to),
    ensures
        trace[k]@ == trace[0]@,
    decreases k,
{
    if k > 0 {
        lemma_flat_trace_constant(connection, apply, from, to, trace, k - 1);
        let j = k - 1;
        assert(connection.step_at(apply, from, to, j, trace[j], trace[j + 1]));
        assert(0 <= path_segment(from, to, j) < connection.transport@.len());
        assert(connection.transport@[path_segment(from, to, j)] is Identity);
    }
}

/// Along a flat connection a round trip returns every state unchanged:
/// transporting from `a` to `b` and back to `a` gives the starting state.
pub proof fn lemma_flat_round_trip<T, F: Fn(&Vec<Vec<T>>, &Vec<T>, bool) -> Vec<T>>(
    connection: Connection<T>,
    apply: F,
    state: Seq<T>,
    a: int,
    b: int,
    there: Seq<T>,
    back: Seq<T>,
)
    requires
        connection.spec_is_flat(),
        0 <= a <= connection.transport@.len(),
        0 <= b <= connection.transport@.len(),
        connection.transports_to(apply, state, a, b, there),
        connection.transports_to(apply, there, b, a, back),
    ensures
        back == state,
{
    lemma_flat_transport_is_identity(connection, apply, state, a, b, there);
    lemma_flat_transport_is_identity(connection, apply, there, b, a, back);
}

/// Along a flat connection every path between covered points is flat.
pub proof fn lemma_flat_path<T>(connection: Connection<T>, from: int, to: int)
    requires
        connection.spec_is_flat(),
        0 <= from <= connection.transport@.len(),
        0 <= to <= connection.transport@.len(),
    ensures
        connection.path_is_flat(from, to),
{
    assert forall|k: int| 0 <= k < path_len(from, to) implies #[trigger] connection.transport@[path_segment(from, to, k)] is Identity by {
        assert(0 <= path_segment(from, to, k) < connection.transport@.len());
    }
}

/// A flat connection has trivial holonomy: transporting a state around any
/// closed loop of covered points brings it back unchanged.
pub proof fn lemma_flat_holonomy_trivial<T, F: Fn(&Vec<Vec<T>>, &Vec<T>, bool) -> Vec<T>>(
    connection: Connection<T>,
    apply: F,
    loop_path: Seq<usize>,
    state: Seq<T>,
    result: Seq<T>,
)
    requires
        connection.spec_is_flat(),
        connection.loop_check(loop_path) is Ok,
        connection.transports_along(apply, loop_path, state, result),
    ensures
        result == state,
{
    let states = choose|states: Seq<Seq<T>>|
        #[trigger] connection.is_path_trace(apply, loop_path, states) && states[0] == state
            && states.last() == result;
    lemma_loop_points_covered(connection, loop_path, 0);
    lemma_flat_path_trace_constant(connection, apply, loop_path, states, loop_path.len() - 1);
}

/// The points of a loop that passes the check are covered by the connection.
proof fn lemma_loop_points_covered<T>(connection: Connection<T>, loop_path: Seq<usize>, from: int)
    requires
        0 <= from <= loop_path.len(),
        first_beyond(loop_path, connection.transport@.len(), from) >= loop_path.len(),
    ensures
        forall|i: int| from <= i < loop_path.len() ==> #[trigger] loop_path[i] <= connection.transport@.len(),
    decreases loop_path.len() - from,
{
    if from < loop_path.len() {
        lemma_loop_points_covered(connection, loop_path, from + 1);
    }
}

/// Every state of a point-by-point trace along a flat connection equals the
/// first.
proof fn lemma_flat_path_trace_constant<T, F: Fn(&Vec<Vec<T>>, &Vec<T>, bool) -> Vec<T>>(
    connection: Connection<T>,
    apply: F,
    path: Seq<usize>,
    states: Seq<Seq<T>>,
    k: int,
)
    requires
        connection.spec_is_flat(),
        forall|i: int| 0 <= i < path.len() ==> #[trigger] path[i] <= connection.transport@.len(),
        connection.is_path_trace(apply, path, states),
        0 <= k < path.len(),
    ensures
        states[k] == states[0],
    decreases k,
{
    if k > 0 {
        let j = k - 1;
        lemma_flat_path_trace_constant(connection, apply, path, states, j);
        assert(connection.transports_to(apply, states[j], path[j] as int, path[j + 1] as int, states[j + 1]));
        lemma_flat_transport_is_identity(connection, apply, states[j], path[j] as int, path[j + 1] as int, states[j + 1]);
    }
}

/// The kernel is a function of its arguments: on the same matrix, states of
/// the same contents and the same direction, all its outcomes agree.
pub open spec fn kernel_is_function<T, F: Fn(&Vec<Vec<T>>, &Vec<T>, bool) -> Vec<T>>(apply: F) -> bool {
    forall|m: &Vec<Vec<T>>, v1: &Vec<T>, v2: &Vec<T>, d: bool, r1: Vec<T>, r2: Vec<T>|
        #![trigger call_ensures(apply, (m, v1, d), r1), call_ensures(apply, (m, v2, d), r2)]
        v1@ == v2@ && call_ensures(apply, (m, v1, d), r1) && call_ensures(apply, (m, v2, d), r2) ==> r1@ == r2@
}

/// With a kernel that is a function of its arguments, parallel transport is
/// a function too: two transports of the same state between the same points
/// give the same result.
pub proof fn lemma_transport_deterministic<T, F: Fn(&Vec<Vec<T>>, &Vec<T>, bool) -> Vec<T>>(
    connection: Connection<T>,
    apply: F,
    state: Seq<T>,
    from: int,
    to: int,
    first: Seq<T>,
    second: Seq<T>,
)
    requires
        kernel_is_function(apply),
        connection.transports_to(apply, state, from, to, first),
        connection.transports_to(apply, state, from, to, second),
    ensures
        first == second,
{
    let t1 = choose|trace: Seq<Vec<T>>|
        #[trigger] connection.is_transport_trace(apply, from, to, trace) && trace[0]@ == state
            && trace.last()@ == first;
    let t2 = choose|trace: Seq<Vec<T>>|
        #[trigger] connection.is_transport_trace(apply, from, to, trace) && trace[0]@ == state
            && trace.last()@ == second;
    lemma_traces_agree(connection, apply, from, to, t1, t2, path_len(from, to) as int);
}

/// Two transport traces from states of the same contents agree at every step.
proof fn lemma_traces_agree<T, F: Fn(&Vec<Vec<T>>, &Vec<T>, bool) -> Vec<T>>(
    connection: Connection<T>,
    apply: F,
    from: int,
    to: int,
    first: Seq<Vec<T>>,
    second: Seq<Vec<T>>,
    k: int,
)
    requires
        kernel_is_function(apply),
        connection.is_transport_trace(apply, from, to, first),
        connection.is_transport_trace(apply, from, to, second),
        first[0]@ == second[0]@,
        0 <= k <= path_len(from, to),
    ensures
        first[k]@ == second[k]@,
    decreases k,
{
    if k > 0 {
        let j = k - 1;
        lemma_traces_agree(connection, apply, from, to, first, second, j);
        assert(connection.step_at(apply, from, to, j, first[j], first[j + 1]));
        assert(connection.step_at(apply, from, to, j, second[j], second[j + 1]));
        match connection.transport@[path_segment(from, to, j)] {
            Transport::Identity(_) => {},
            Transport::Matrix(m) => {
                assert(call_ensures(apply, (&m, &first[j], from <= to), first[j + 1]));
                assert(call_ensures(apply, (&m, &second[j], from <= to), second[j + 1]));
            },
        }
    }
}

/// The kernel's backward call undoes its forward call and its forward call
/// undoes its backward call: applying a matrix one way, then the other way to
/// a state of the same contents, gives back the contents started from.
pub open spec fn kernel_inverts<T, F: Fn(&Vec<Vec<T>>, &Vec<T>, bool) -> Vec<T>>(apply: F) -> bool {
    &&& forall|m: &Vec<Vec<T>>, v: &Vec<T>, w: &Vec<T>, r: Vec<T>, u: Vec<T>|
        #![trigger call_ensures(apply, (m, v, true), r), call_ensures(apply, (m, w, false), u)]
        call_ensures(apply, (m, v, true), r) && w@ == r@ && call_ensures(apply, (m, w, false), u) ==> u@ == v@
    &&& forall|m: &Vec<Vec<T>>, v: &Vec<T>, w: &Vec<T>, r: Vec<T>, u: Vec<T>|
        #![trigger call_ensures(apply, (m, v, false), r), call_ensures(apply, (m, w, true), u)]
        call_ensures(apply, (m, v, false), r) && w@ == r@ && call_ensures(apply, (m, w, true), u) ==> u@ == v@
}

/// Parallel transport is reversible: with a kernel whose backward call
/// inverts its forward call, transporting a state from `a` to `b` and then
/// back from `b` to `a` returns the state, whatever the matrices (so the way
/// back crosses the segments in the reverse order, each inverted).
pub proof fn lemma_transport_round_trip<T, F: Fn(&Vec<Vec<T>>, &Vec<T>, bool) -> Vec<T>>(
    connection: Connection<T>,
    apply: F,
    state: Seq<T>,
    a: int,
    b: int,
    there: Seq<T>,
    back: Seq<T>,
)
    requires
        kernel_inverts(apply),
        connection.transports_to(apply, state, a, b, there),
        connection.transports_to(apply, there, b, a, back),
    ensures
        back == state,
{
    let t1 = choose|trace: Seq<Vec<T>>|
        #[trigger] connection.is_transport_trace(apply, a, b, trace) && trace[0]@ == state
            && trace.last()@ == there;
    let t2 = choose|trace: Seq<Vec<T>>|
        #[trigger] connection.is_transport_trace(apply, b, a, trace) && trace[0]@ == there
            && trace.last()@ == back;
    let n = path_len(a, b) as int;
    lemma_reverse_trace(connection, apply, a, b, t1, t2, n);
}

/// The way back from `b` to `a` meets, at step `k`, the state the way there
/// met `k` steps before its end.
proof fn lemma_reverse_trace<T, F: Fn(&Vec<Vec<T>>, &Vec<T>, bool) -> Vec<T>>(
    connection: Connection<T>,
    apply: F,
    a: int,
    b: int,
    there: Seq<Vec<T>>,
    back: Seq<Vec<T>>,
    k: int,
)
    requires
        kernel_inverts(apply),
        connection.is_transport_trace(apply, a, b, there),
        connection.is_transport_trace(apply, b, a, back),
        back[0]@ == there.last()@,
        0 <= k <= path_len(a, b),
    ensures
        back[k]@ == there[path_len(a, b) - k]@,
    decreases k,
{
    let n = path_len(a, b) as int;
    if k > 0 {
        let j = k - 1;
        let i = n - k;
        lemma_reverse_trace(connection, apply, a, b, there, back, j);
        assert(connection.step_at(apply, b, a, j, back[j], back[j + 1]));
        assert(connection.step_at(apply, a, b, i, there[i], there[i + 1]));
        assert(path_segment(a, b, i) == path_segment(b, a, j));
        match connection.transport@[path_segment(b, a, j)] {
            Transport::Identity(_) => {},
            Transport::Matrix(m) => {
                assert(call_ensures(apply, (&m, &there[i], a <= b), there[i + 1]));
                assert(call_ensures(apply, (&m, &back[j], b <= a), back[j + 1]));
            },
        }
    }
}

/// A single forward step from base point `a` crosses segment `a`: across an
/// identity segment the state is unchanged, across a matrix segment the
/// result is an outcome of the kernel applied forward to that matrix.
pub proof fn lemma_single_forward_step<T, F: Fn(&Vec<Vec<T>>, &Vec<T>, bool) -> Vec<T>>(
    connection: Connection<T>,
    apply: F,
    state: Seq<T>,
    a: int,
    result: Seq<T>,
)
    requires
        connection.transports_to(apply, state, a, a + 1, result),
    ensures
        connection.transport@[a] is Identity ==> result == state,
        connection.transport@[a] matches Transport::Matrix(m) ==> exists|v: Vec<T>, w: Vec<T>|
            v@ == state && w@ == result && #[trigger] call_ensures(apply, (&m, &v, true), w),
{
    let t = choose|trace: Seq<Vec<T>>|
        #[trigger] connection.is_transport_trace(apply, a, a + 1, trace) && trace[0]@ == state
            && trace.last()@ == result;
    let z: int = 0;
    assert(connection.step_at(apply, a, a + 1, z, t[z], t[z + 1]));
    if let Transport::Matrix(m) = connection.transport@[a] {
        assert(call_ensures(apply, (&m, &t[0], true), t[1]));
    }
}

/// Forward transport composes: with a kernel that is a function of its
/// arguments, transporting from `a` to `b` and then from `b` to `c`
/// (a ≤ b ≤ c) gives what transporting from `a` to `c` directly gives.
pub proof fn lemma_forward_transport_composes<T, F: Fn(&Vec<Vec<T>>, &Vec<T>, bool) -> Vec<T>>(
    connection: Connection<T>,
    apply: F,
    state: Seq<T>,
    a: int,
    b: int,
    c: int,
    middle: Seq<T>,
    end: Seq<T>,
    direct: Seq<T>,
)
    requires
        kernel_is_function(apply),
        a <= b <= c,
        connection.transports_to(apply, state, a, b, middle),
        connection.transports_to(apply, middle, b, c, end),
        connection.transports_to(apply, state, a, c, direct),
    ensures
        end == direct,
{
    let t1 = choose|trace: Seq<Vec<T>>|
        #[trigger] connection.is_transport_trace(apply, a, b, trace) && trace[0]@ == state
            && trace.last()@ == middle;
    let t2 = choose|trace: Seq<Vec<T>>|
        #[trigger] connection.is_transport_trace(apply, b, c, trace) && trace[0]@ == middle
            && trace.last()@ == end;
    let t = choose|trace: Seq<Vec<T>>|
        #[trigger] connection.is_transport_trace(apply, a, c, trace) && trace[0]@ == state
            && trace.last()@ == direct;
    lemma_forward_traces_agree(connection, apply, a, c, t, a, b, t1, 0, b - a);
    lemma_forward_traces_agree(connection, apply, a, c, t, b, c, t2, b - a, c - b);
}

/// A forward trace from `b` agrees with the part of a longer forward trace
/// from `a` that starts `off = b - a` steps in.
proof fn lemma_forward_traces_agree<T, F: Fn(&Vec<Vec<T>>, &Vec<T>, bool) -> Vec<T>>(
    connection: Connection<T>,
    apply: F,
    a: int,
    c: int,
    long: Seq<Vec<T>>,
    b: int,
    d: int,
    short: Seq<Vec<T>>,
    off: int,
    k: int,
)
    requires
        kernel_is_function(apply),
        a <= c,
        b <= d,
        0 <= off,
        b == a + off,
        d <= c,
        connection.is_transport_trace(apply, a, c, long),
        connection.is_transport_trace(apply, b, d, short),
        long[off]@ == short[0]@,
        0 <= k <= d - b,
    ensures
        long[off + k]@ == short[k]@,
    decreases k,
{
    if k > 0 {
        let j = k - 1;
        let i = off + j;
        lemma_forward_traces_agree(connection, apply, a, c, long, b, d, short, off, j);
        assert(connection.step_at(apply, a, c, i, long[i], long[i + 1]));
        assert(connection.step_at(apply, b, d, j, short[j], short[j + 1]));
        assert(path_segment(a, c, i) == path_segment(b, d, j));
        match connection.transport@[path_segment(b, d, j)] {
            Transport::Identity(_) => {},
            Transport::Matrix(m) => {
                assert(call_ensures(apply, (&m, &long[i], true), long[i + 1]));
                assert(call_ensures(apply, (&m, &short[j], true), short[j + 1]));
            },
        }
    }
}

} // verus!
