use vstd::prelude::*;

verus! {

/// An `n × n` matrix whose entries are all `T`'s default value.
pub open spec fn is_default_square<T: Default>(m: Seq<Vec<T>>, n: nat) -> bool {
    &&& m.len() == n
    &&& forall|i: int|
        0 <= i < n ==> (#[trigger] m[i])@.len() == n && forall|j: int|
            0 <= j < n ==> call_ensures(T::default, (), #[trigger] m[i]@[j])
}

/// An `n × n` matrix of `T`'s default value (zero for numbers).
pub fn default_square<T: Default + Copy>(n: usize) -> (m: Vec<Vec<T>>)
    ensures
        is_default_square(m@, n as nat),
{
    let zero = T::default();
    let mut m: Vec<Vec<T>> = Vec::with_capacity(n);
    let mut i: usize = 0;
    while i < n
        invariant
            i <= n,
            call_ensures(T::default, (), zero),
            m@.len() == i,
            forall|a: int|
                0 <= a < i ==> (#[trigger] m@[a])@.len() == n && forall|b: int|
                    0 <= b < n ==> m@[a]@[b] == zero,
        decreases n - i,
    {
        let mut row: Vec<T> = Vec::with_capacity(n);
        let mut j: usize = 0;
        while j < n
            invariant
                j <= n,
                row@.len() == j,
                forall|b: int| 0 <= b < j ==> row@[b] == zero,
            decreases n - j,
        {
            row.push(zero);
            j = j + 1;
        }
        m.push(row);
        i = i + 1;
    }
    m
}

/// Curvature 2-form Ω = dω + ω ∧ ω.
///
/// `components[k][i][j]` is the (i, j) component of the curvature in the
/// k-th 2-form slot.
#[derive(Debug)]
pub struct CurvatureForm<T> {
    pub components: Vec<Vec<Vec<T>>>,
}

impl<T> CurvatureForm<T> {
    pub fn new(components: Vec<Vec<Vec<T>>>) -> (c: Self)
        ensures
            c.components == components,
    {
        CurvatureForm { components }
    }

    /// Dimension of the curvature matrices: the row count of the first slot,
    /// 0 when there is no slot.
    pub fn dim(&self) -> (d: usize)
        ensures
            self.components@.len() == 0 ==> d == 0,
            self.components@.len() > 0 ==> d == self.components@[0]@.len(),
    {
        if self.components.len() == 0 {
            0
        } else {
            self.components[0].len()
        }
    }
}

impl<T: Default + Copy> CurvatureForm<T> {
    /// The zero curvature of dimension `n`: one slot, an `n × n` matrix of
    /// `T`'s default value.
    pub fn zero(n: usize) -> (c: Self)
        ensures
            c.components@.len() == 1,
            is_default_square(c.components@[0]@, n as nat),
    {
        let mut components: Vec<Vec<Vec<T>>> = Vec::with_capacity(1);
        components.push(default_square(n));
        CurvatureForm { components }
    }
}

} // verus!
