//! Growable storage of optional values, addressed by a dense index.

use vstd::prelude::*;

verus! {

/// Whether `n` is a power of two.
pub open spec fn is_pow2(n: nat) -> bool
    decreases n,
{
    if n <= 1 {
        n == 1
    } else {
        n % 2 == 0 && is_pow2(n / 2)
    }
}

/// The first of `m`, `2m`, `4m`, ... that is at least `n`.
pub open spec fn double_until(m: nat, n: nat) -> nat
    decreases (if m >= n { 0 } else { n - m }),
{
    if m == 0 || m >= n {
        m
    } else {
        double_until(2 * m, n)
    }
}

/// The smallest power of two that is at least `n`.
pub open spec fn ceil_pow2(n: nat) -> nat {
    double_until(1, n)
}

/// The slots after growing `s` so that it holds at least `n` of them: unchanged when it
/// already does, else extended with absent slots up to the next power of two.
pub open spec fn grown<T>(s: Seq<Option<T>>, n: nat) -> Seq<Option<T>> {
    if n <= s.len() {
        s
    } else {
        s + Seq::new((ceil_pow2(n) - s.len()) as nat, |i: int| None::<T>)
    }
}

/// An optional reference, seen as an optional value.
pub open spec fn opt_deref<T>(o: Option<&T>) -> Option<T> {
    match o {
        Some(v) => Some(*v),
        None => None,
    }
}

/// A vector of `Option<T>` slots that grows on demand, to a power of two, and never shrinks.
///
/// Slots past what was ever written read as absent. Dropping the vector drops every slot once.
#[derive(Debug)]
pub struct UnsafeOptionVec<T> {
    slots: Vec<Option<T>>,
}

impl<T> View for UnsafeOptionVec<T> {
    type V = Seq<Option<T>>;

    closed spec fn view(&self) -> Seq<Option<T>> {
        self.slots@
    }
}

proof fn lemma_double_pow2(m: nat)
    requires
        is_pow2(m),
    ensures
        is_pow2(2 * m),
{
    assert((2 * m) / 2 == m);
}

proof fn lemma_double_until_grows(m: nat, n: nat)
    requires
        m >= 1,
    ensures
        double_until(m, n) >= n,
        double_until(m, n) >= m,
    decreases (if m >= n { 0 } else { n - m }),
{
    if m < n {
        lemma_double_until_grows(2 * m, n);
    }
}

impl<T> UnsafeOptionVec<T> {
    /// The storage invariant: the length is zero or a power of two.
    pub open spec fn wf(&self) -> bool {
        self@.len() == 0 || is_pow2(self@.len())
    }

    /// What the slot at `i` holds; absent past the end.
    pub open spec fn slot(&self, i: nat) -> Option<T> {
        if i < self@.len() {
            self@[i as int]
        } else {
            None
        }
    }

    /// Creates an empty vector, which has allocated nothing.
    pub fn new() -> (r: UnsafeOptionVec<T>)
        ensures
            r@ == Seq::<Option<T>>::empty(),
            r.wf(),
    {
        UnsafeOptionVec { slots: Vec::new() }
    }

    /// The number of slots allocated.
    pub fn len(&self) -> (r: usize)
        ensures
            r == self@.len(),
    {
        self.slots.len()
    }

    /// Grows the vector so that it holds at least `n` slots, filling new slots with `None`.
    fn grow_to(&mut self, n: usize)
        requires
            old(self).wf(),
            n <= usize::MAX / 2 + 1 || n <= old(self)@.len(),
        ensures
            final(self).wf(),
            final(self)@ =~= grown(old(self)@, n as nat),
    {
        let old_len = self.slots.len();
        if n <= old_len {
            return;
        }
        let mut cap: usize = 1;
        while cap < n
            invariant
                1 <= cap,
                cap < 2 * n,
                n <= usize::MAX / 2 + 1,
                is_pow2(cap as nat),
                double_until(cap as nat, n as nat) == ceil_pow2(n as nat),
            decreases 2 * n - cap,
        {
            proof {
                lemma_double_pow2(cap as nat);
            }
            cap = cap * 2;
        }
        proof {
            lemma_double_until_grows(1, n as nat);
        }
        let ghost before = self.slots@;
        let mut i: usize = old_len;
        while i < cap
            invariant
                old_len <= i <= cap,
                self.slots@.len() == i,
                self.slots@.subrange(0, old_len as int) == before,
                before.len() == old_len,
                forall|j: int| old_len <= j < i ==> self.slots@[j] is None,
            decreases cap - i,
        {
            self.slots.push(None);
            i = i + 1;
        }
        assert(self.slots@ =~= grown(before, n as nat));
    }
    /// Reads slot `n`, without growing the vector.
    pub fn get(&self, n: usize) -> (r: Option<&T>)
        ensures
            opt_deref(r) == self.slot(n as nat),
    {
        if n < self.slots.len() {
            self.slots[n].as_ref()
        } else {
            None
        }
    }

    /// A mutable reference to slot `n`. The vector first grows, to the next power of two
    /// that is at least `n + 1`, when `n` is past its end; no other slot changes.
    pub fn get_mut(&mut self, n: usize) -> (r: &mut Option<T>)
        requires
            old(self).wf(),
            n < usize::MAX / 2 || n < old(self)@.len(),
        ensures
            final(self).wf(),
            *r == old(self).slot(n as nat),
            final(self)@ == grown(old(self)@, n as nat + 1).update(n as int, *final(r)),
            final(self).slot(n as nat) == *final(r),
            forall|i: nat| i != n ==> #[trigger] final(self).slot(i) == old(self).slot(i),
    {
        proof {
            lemma_double_until_grows(1, n as nat + 1);
        }
        if n >= self.slots.len() {
            self.grow_to(n + 1);
        }
        &mut self.slots[n]
    }
}

} // verus!
