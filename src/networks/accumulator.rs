use vstd::prelude::*;

verus! {

/// Whether `x` fits in an `i16`.
pub open spec fn fits_i16(x: int) -> bool {
    i16::MIN <= x <= i16::MAX
}

/// A fixed-length vector of feature activations.
#[derive(Clone, Copy)]
pub struct Accumulator<T: Copy, const N: usize>(pub [T; N]);

impl<const N: usize> Accumulator<i16, N> {
    /// Adds `other` element by element.
    pub fn add(&mut self, other: &Self)
        requires
            forall|i: int| 0 <= i < N ==> fits_i16(old(self).0@[i] + other.0@[i]),
        ensures
            forall|i: int| 0 <= i < N ==> final(self).0@[i] == old(self).0@[i] + other.0@[i],
    {
        let mut i: usize = 0;
        while i < N
            invariant
                i <= N,
                self.0@.len() == N,
                other.0@.len() == N,
                forall|j: int| 0 <= j < N ==> fits_i16(old(self).0@[j] + other.0@[j]),
                forall|j: int| 0 <= j < i ==> self.0@[j] == old(self).0@[j] + other.0@[j],
                forall|j: int| i <= j < N ==> self.0@[j] == old(self).0@[j],
            decreases N - i,
        {
            self.0[i] = self.0[i] + other.0[i];
            i = i + 1;
        }
    }

    /// Adds `mul` times `other` element by element.
    pub fn madd(&mut self, mul: i16, other: &Self)
        requires
            forall|i: int| 0 <= i < N ==> fits_i16(mul * other.0@[i]),
            forall|i: int| 0 <= i < N ==> fits_i16(old(self).0@[i] + mul * other.0@[i]),
        ensures
            forall|i: int| 0 <= i < N ==> final(self).0@[i] == old(self).0@[i] + mul * other.0@[i],
    {
        let mut i: usize = 0;
        while i < N
            invariant
                i <= N,
                self.0@.len() == N,
                other.0@.len() == N,
                forall|j: int| 0 <= j < N ==> fits_i16(mul * other.0@[j]),
                forall|j: int| 0 <= j < N ==> fits_i16(old(self).0@[j] + mul * other.0@[j]),
                forall|j: int| 0 <= j < i ==> self.0@[j] == old(self).0@[j] + mul * other.0@[j],
                forall|j: int| i <= j < N ==> self.0@[j] == old(self).0@[j],
            decreases N - i,
        {
            self.0[i] = self.0[i] + mul * other.0[i];
            i = i + 1;
        }
    }
}

} // verus!
