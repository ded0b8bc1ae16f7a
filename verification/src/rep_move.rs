//! Hands out `n - 1` replicas of a value and then the value itself, so the
//! last one costs no copy.
use vstd::prelude::*;

verus! {

/// How a replica is made; it may also change how many replicas are left.
pub trait Replicator<T> {
    /// The replicator can be called on any value.
    spec fn ready(&self) -> bool;

    /// Whether replicating `source` with `before` replicas left may give
    /// `item`, leave `after` replicas, and leave the replicator as `next`.
    spec fn replicates(&self, source: &T, before: usize, after: usize, item: T, next: &Self) -> bool;

    fn replicate(&mut self, source: &T, remaining: &mut usize) -> (r: T)
        requires
            old(self).ready(),
        ensures
            final(self).ready(),
            old(self).replicates(source, *old(remaining), *final(remaining), r, &*final(self)),
    ;
}

/// One replica fewer, never below zero.
pub open spec fn one_fewer(n: usize) -> usize {
    if n > 0 {
        (n - 1) as usize
    } else {
        0
    }
}

impl<T, F: Fn(&T) -> T> Replicator<T> for F {
    open spec fn ready(&self) -> bool {
        forall|s: &T| #[trigger] call_requires(*self, (s,))
    }

    open spec fn replicates(&self, source: &T, before: usize, after: usize, item: T, next: &Self) -> bool {
        call_ensures(*self, (source,), item) && after == one_fewer(before) && *next == *self
    }

    /// A replica made by the function; one replica fewer is left.
    fn replicate(&mut self, source: &T, remaining: &mut usize) -> (r: T)
        ensures
            call_ensures(*old(self), (source,), r),
            *final(self) == *old(self),
            *final(remaining) == (if *old(remaining) > 0 {
                *old(remaining) - 1
            } else {
                0
            }),
    {
        let item = (*self)(source);
        *remaining = if *remaining > 0 {
            *remaining - 1
        } else {
            0
        };
        item
    }
}

/// A replicator that is told how many replicas are left.
pub struct ReadState<F>(pub F);

impl<T, F: Fn(&T, usize) -> T> Replicator<T> for ReadState<F> {
    open spec fn ready(&self) -> bool {
        forall|s: &T, n: usize| #[trigger] call_requires(self.0, (s, n))
    }

    open spec fn replicates(&self, source: &T, before: usize, after: usize, item: T, next: &Self) -> bool {
        call_ensures(self.0, (source, before), item) && after == one_fewer(before) && *next == *self
    }

    /// A replica made by the function, told how many replicas are left;
    /// one replica fewer is left.
    fn replicate(&mut self, source: &T, remaining: &mut usize) -> (r: T)
        ensures
            call_ensures(old(self).0, (source, *old(remaining)), r),
            *final(self) == *old(self),
            *final(remaining) == (if *old(remaining) > 0 {
                *old(remaining) - 1
            } else {
                0
            }),
    {
        let item = (self.0)(source, *remaining);
        *remaining = if *remaining > 0 {
            *remaining - 1
        } else {
            0
        };
        item
    }
}

/// A replicator that sets how many replicas are left itself.
pub struct MutState<F>(pub F);

impl<T, F: Fn(&T, &mut usize) -> T> Replicator<T> for MutState<F> {
    open spec fn ready(&self) -> bool {
        forall|s: &T, n: &mut usize| #[trigger] call_requires(self.0, (s, n))
    }

    open spec fn replicates(&self, source: &T, before: usize, after: usize, item: T, next: &Self) -> bool {
        &&& exists|m: &mut usize| *m == before && #[trigger] call_ensures(self.0, (source, m), item)
        &&& *next == *self
    }

    /// A replica made by the function, which also sets how many replicas
    /// are left.
    fn replicate(&mut self, source: &T, remaining: &mut usize) -> (r: T)
        ensures
            exists|m: &mut usize|
                {
                    &&& *m == *old(remaining)
                    &&& *final(m) == *final(remaining)
                    &&& #[trigger] call_ensures(old(self).0, (source, m), r)
                },
            *final(self) == *old(self),
    {
        (self.0)(source, remaining)
    }
}

enum State<T, R> {
    Active { source: T, remaining: usize, rep_fn: R },
    Done,
}

/// Yields replicas of a value while some are left, then the value itself.
pub struct RepMove<T, R: Replicator<T>> {
    state: State<T, R>,
}

impl<T, R: Replicator<T>> RepMove<T, R> {
    /// How many items are left: the replicas and the value, or none.
    pub closed spec fn spec_len(&self) -> nat {
        match self.state {
            State::Active { remaining, .. } => (remaining + 1) as nat,
            State::Done => 0,
        }
    }

    /// The replicator of an active iterator can be called.
    pub closed spec fn wf(&self) -> bool {
        match self.state {
            State::Active { rep_fn, .. } => rep_fn.ready(),
            State::Done => true,
        }
    }

    /// The replicator, while the value has not been handed out.
    pub closed spec fn spec_replicator(&self) -> Option<R> {
        match self.state {
            State::Active { rep_fn, .. } => Some(rep_fn),
            State::Done => None,
        }
    }

    /// The value replicated, while it has not been handed out.
    pub closed spec fn spec_source(&self) -> Option<T> {
        match self.state {
            State::Active { source, .. } => Some(source),
            State::Done => None,
        }
    }

    /// `count` items of `source`: `count - 1` replicas made by `rep_fn`,
    /// then `source`; none for `0`.
    pub fn new(source: T, rep_fn: R, count: usize) -> (r: RepMove<T, R>)
        requires
            rep_fn.ready(),
        ensures
            r.wf(),
            r.spec_len() == count,
            count > 0 ==> r.spec_source() == Some(source) && r.spec_replicator() == Some(rep_fn),
    {
        if count == 0 {
            RepMove { state: State::Done }
        } else {
            RepMove { state: State::Active { source, remaining: count - 1, rep_fn } }
        }
    }

    /// The next replica, or the value itself when no replica is left.
    pub fn next(&mut self) -> (r: Option<T>)
        requires
            old(self).wf(),
        ensures
            final(self).wf(),
            old(self).spec_len() == 0 ==> r is None && final(self).spec_len() == 0,
            old(self).spec_len() == 1 ==> r == old(self).spec_source() && final(self).spec_len()
                == 0,
            old(self).spec_len() > 1 ==> {
                &&& r is Some
                &&& final(self).spec_len() >= 1
                &&& final(self).spec_source() == old(self).spec_source()
                &&& old(self).spec_replicator().unwrap().replicates(
                    &old(self).spec_source().unwrap(),
                    (old(self).spec_len() - 1) as usize,
                    (final(self).spec_len() - 1) as usize,
                    r.unwrap(),
                    &final(self).spec_replicator().unwrap(),
                )
            },
    {
        let mut state = State::Done;
        std::mem::swap(&mut state, &mut self.state);
        match state {
            State::Active { source, remaining, rep_fn } => {
                if remaining > 0 {
                    let mut remaining = remaining;
                    let mut rep_fn = rep_fn;
                    let item = rep_fn.replicate(&source, &mut remaining);
                    self.state = State::Active { source, remaining, rep_fn };
                    Some(item)
                } else {
                    Some(source)
                }
            },
            State::Done => None,
        }
    }

    /// How many items are left.
    pub fn len(&self) -> (r: usize)
        requires
            self.spec_len() <= usize::MAX,
        ensures
            r == self.spec_len(),
    {
        match &self.state {
            State::Active { remaining, .. } => *remaining + 1,
            State::Done => 0,
        }
    }

    /// How many items are left, as a lower and an upper bound (both exact).
    pub fn size_hint(&self) -> (r: (usize, Option<usize>))
        requires
            self.spec_len() <= usize::MAX,
        ensures
            r.0 == self.spec_len(),
            r.1 == Some(r.0),
    {
        let len = self.len();
        (len, Some(len))
    }
}

} // verus!
