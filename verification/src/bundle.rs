use vstd::prelude::*;

use crate::connection::{Connection, Transport};
use crate::error::FiberError;

verus! {

/// A fiber bundle (E, B, π, F) modelling concurrent agent scheduling.
///
/// - **Base space B** = timeline (`base_points`).
/// - **Fiber F** = agent state space of dimension `fiber_dim`.
/// - **Total space E** = all (time, state) pairs.
/// - **Connection** = defines parallel transport (time evolution).
///
/// `T` is the scalar type of time points and fiber states.
#[derive(Debug)]
pub struct FiberBundle<T> {
    /// Timeline points (base space B).
    pub base_points: Vec<T>,
    /// Dimension of the fiber (agent state space).
    pub fiber_dim: usize,
    /// Connection defining parallel transport.
    pub connection: Connection<T>,
}

/// Number of segments of the flat connection that a bundle over `n` base
/// points starts with: `n - 1`, but at least one.
pub open spec fn flat_segments(n: nat) -> nat {
    if n >= 2 {
        (n - 1) as nat
    } else {
        1
    }
}

impl<T> FiberBundle<T> {
    /// A well-formed bundle: a non-empty timeline, a fiber of dimension at
    /// least 1, and transport matrices of the fiber's dimension.
    pub open spec fn wf(&self) -> bool {
        &&& self.base_points@.len() > 0
        &&& self.fiber_dim >= 1
        &&& self.connection.fits_fiber(self.fiber_dim as nat)
    }

    /// Create a new fiber bundle over a timeline with the given fiber
    /// dimension.
    ///
    /// The connection is initialised as flat (identity transport) over
    /// `base_points.len() - 1` segments, at least one.
    pub fn new(base_points: Vec<T>, fiber_dim: usize) -> (r: Result<Self, FiberError<T>>)
        ensures
            base_points@.len() == 0 ==> r == Err::<Self, FiberError<T>>(FiberError::EmptyBaseSpace),
            base_points@.len() > 0 && fiber_dim == 0 ==> r == Err::<Self, FiberError<T>>(
                FiberError::InvalidFiberDimension(0)),
            base_points@.len() > 0 && fiber_dim > 0 ==> (r matches Ok(b) && {
                &&& b.base_points@ == base_points@
                &&& b.fiber_dim == fiber_dim
                &&& b.connection.transport@.len() == flat_segments(base_points@.len())
                &&& base_points@.len() >= 2 ==> b.connection.transport@.len() + 1 == base_points@.len()
                &&& base_points@.len() == 1 ==> b.connection.transport@.len() == 1
                &&& b.base_points@.len() <= b.connection.transport@.len() + 1
                &&& forall|k: int|
                    0 <= k < b.connection.transport@.len() ==> #[trigger] b.connection.transport@[k]
                        == Transport::<T>::Identity(fiber_dim)
                &&& b.connection.spec_is_flat()
                &&& b.wf()
            }),
    {
        if base_points.len() == 0 {
            return Err(FiberError::EmptyBaseSpace);
        }
        if fiber_dim == 0 {
            return Err(FiberError::InvalidFiberDimension(0));
        }
        let segments: usize = if base_points.len() >= 2 { base_points.len() - 1 } else { 1 };
        let connection = Connection::flat(fiber_dim, segments);
        Ok(FiberBundle { base_points, fiber_dim, connection })
    }

    /// Create a bundle with a custom connection.
    ///
    /// Fails on an empty timeline, on fiber dimension 0, and on the first
    /// transport matrix that is not `fiber_dim × fiber_dim` (reporting its row
    /// count).
    pub fn with_connection(base_points: Vec<T>, fiber_dim: usize, connection: Connection<T>) -> (r: Result<
        Self,
        FiberError<T>,
    >)
        ensures
            base_points@.len() == 0 ==> r == Err::<Self, FiberError<T>>(FiberError::EmptyBaseSpace),
            base_points@.len() > 0 && fiber_dim == 0 ==> r == Err::<Self, FiberError<T>>(
                FiberError::InvalidFiberDimension(0)),
            r matches Ok(b) ==> forall|k: int|
                0 <= k < b.connection.transport@.len() ==> match #[trigger] b.connection.transport@[k] {
                    Transport::Identity(d) => d == fiber_dim,
                    Transport::Matrix(m) => m@.len() == fiber_dim && forall|i: int|
                        0 <= i < m@.len() ==> (#[trigger] m@[i])@.len() == fiber_dim,
                },
            base_points@.len() > 0 && fiber_dim > 0 && connection.fits_fiber(fiber_dim as nat) ==> (r matches Ok(
                b,
            ) && b.base_points@ == base_points@ && b.fiber_dim == fiber_dim && b.connection == connection
                && b.wf()),
            base_points@.len() > 0 && fiber_dim > 0 && !connection.fits_fiber(fiber_dim as nat) ==> exists|k: int|
                0 <= k < connection.transport@.len() && !(#[trigger] connection.transport@[k]).is_square_of(
                    fiber_dim as nat,
                ) && (forall|j: int|
                    0 <= j < k ==> (#[trigger] connection.transport@[j]).is_square_of(fiber_dim as nat)) && r
                    == Err::<Self, FiberError<T>>(
                    (FiberError::TransportMatrixSizeMismatch {
                        expected: fiber_dim,
                        got: connection.transport@[k].rows() as usize,
                    }),
                ),
    {
        if base_points.len() == 0 {
            return Err(FiberError::EmptyBaseSpace);
        }
        if fiber_dim == 0 {
            return Err(FiberError::InvalidFiberDimension(0));
        }
        let mut k: usize = 0;
        while k < connection.transport.len()
            invariant
                base_points@.len() > 0,
                fiber_dim > 0,
                k <= connection.transport@.len(),
                forall|j: int| 0 <= j < k ==> (#[trigger] connection.transport@[j]).is_square_of(fiber_dim as nat),
            decreases connection.transport@.len() - k,
        {
            if !connection.transport[k].check_square(fiber_dim) {
                let got = connection.transport[k].row_count();
                return Err(FiberError::TransportMatrixSizeMismatch { expected: fiber_dim, got });
            }
            k = k + 1;
        }
        Ok(FiberBundle { base_points, fiber_dim, connection })
    }

    /// Number of base points (timeline length).
    pub fn len(&self) -> (r: usize)
        ensures
            r == self.base_points@.len(),
    {
        self.base_points.len()
    }

    /// Whether the base space is empty (never the case for a well-formed
    /// bundle).
    pub fn is_empty(&self) -> (r: bool)
        ensures
            r == (self.base_points@.len() == 0),
            self.wf() ==> !r,
    {
        self.base_points.len() == 0
    }
}

impl<T: Copy> FiberBundle<T> {
    /// Projection π: given an index into the base space, return the time point.
    pub fn projection(&self, idx: usize) -> (r: Result<T, FiberError<T>>)
        ensures
            idx < self.base_points@.len() ==> r == Ok::<T, FiberError<T>>(self.base_points@[idx as int]),
            idx >= self.base_points@.len() ==> r == Err::<T, FiberError<T>>(
                (FiberError::IndexOutOfBounds { index: idx, len: self.base_points@.len() as usize })),
    {
        if idx < self.base_points.len() {
            Ok(self.base_points[idx])
        } else {
            Err(FiberError::IndexOutOfBounds { index: idx, len: self.base_points.len() })
        }
    }

    /// Parallel-transport a fiber vector from index `from` to index `to`
    /// along the bundle's connection; `apply` multiplies a state by a segment
    /// matrix (forward) or by its inverse (backward).
    pub fn transport<F: Fn(&Vec<Vec<T>>, &Vec<T>, bool) -> Vec<T>>(
        &self,
        fiber_state: &Vec<T>,
        from: usize,
        to: usize,
        apply: &F,
    ) -> (r: Result<Vec<T>, FiberError<T>>)
        requires
            forall|m: &Vec<Vec<T>>, v: &Vec<T>, d: bool| call_requires(*apply, (m, v, d)),
        ensures
            from > self.connection.transport@.len() ==> r == Err::<Vec<T>, FiberError<T>>(
                (FiberError::IndexOutOfBounds { index: from, len: self.connection.point_count() })),
            from <= self.connection.transport@.len() < to ==> r == Err::<Vec<T>, FiberError<T>>(
                (FiberError::IndexOutOfBounds { index: to, len: self.connection.point_count() })),
            from <= self.connection.transport@.len() && to <= self.connection.transport@.len() ==> r is Ok,
            r matches Ok(v) ==> self.connection.transports_to(*apply, fiber_state@, from as int, to as int, v@),
            r matches Ok(v) ==> (self.connection.path_is_flat(from as int, to as int) ==> v@ == fiber_state@),
    {
        self.connection.transport_vector(fiber_state, from, to, apply)
    }
}

/// One agent's local clock: a fiber of the timing bundle.
#[derive(Debug)]
pub struct AgentClock<T> {
    pub id: usize,
    /// Fractional clock drift per unit base time.
    pub drift_rate: T,
    /// Fixed offset.
    pub latency: T,
    /// Natural response cadence period.
    pub rhythm: T,
}

impl<T> AgentClock<T> {
    pub fn new(id: usize, drift_rate: T, latency: T, rhythm: T) -> (c: Self)
        ensures
            c.id == id,
            c.drift_rate == drift_rate,
            c.latency == latency,
            c.rhythm == rhythm,
    {
        AgentClock { id, drift_rate, latency, rhythm }
    }
}

/// Principal timing bundle: the agents' clocks over a shared timeline.
#[derive(Debug)]
pub struct TimingBundle<T> {
    /// Shared timeline dimensionality.
    pub base_dim: usize,
    /// Agent state dimensionality.
    pub fiber_dim: usize,
    /// Number of agents.
    pub agents: usize,
    pub clocks: Vec<AgentClock<T>>,
}

impl<T> TimingBundle<T> {
    /// A timing bundle with one agent per clock.
    pub fn with_clocks(clocks: Vec<AgentClock<T>>, base_dim: usize, fiber_dim: usize) -> (b: Self)
        ensures
            b.clocks@ == clocks@,
            b.agents == clocks@.len(),
            b.base_dim == base_dim,
            b.fiber_dim == fiber_dim,
    {
        let agents = clocks.len();
        TimingBundle { base_dim, fiber_dim, agents, clocks }
    }
}

} // verus!
