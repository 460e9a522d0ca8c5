//! The event queue: a min-priority queue keyed by due time.
//!
//! Entries pair an opaque payload with an absolute due time. [`EventQueue::pop_min`]
//! always removes an entry whose due time is the minimum of everything
//! pending; among equal due times it takes the earliest-pushed entry, so the
//! queue as a whole is deterministic.

use crate::time::Time;
use vstd::prelude::*;

verus! {

/// A pending entry: an opaque payload due at an absolute time.
pub struct Pending<P> {
    pub payload: P,
    pub due: Time,
}

/// The index of the first entry of `s` whose due time is minimal.
pub open spec fn min_idx<P>(s: Seq<Pending<P>>) -> int
    recommends
        s.len() >= 1,
    decreases s.len(),
{
    if s.len() <= 1 {
        0
    } else {
        let j = min_idx(s.drop_last());
        if s.last().due.spec_lt(s[j].due) {
            s.len() - 1
        } else {
            j
        }
    }
}

/// `min_idx` lands in range, on a minimal due time, and strictly after
/// nothing that shares that minimal due time.
pub proof fn lemma_min_idx<P>(s: Seq<Pending<P>>)
    requires
        s.len() >= 1,
        forall|i: int| 0 <= i < s.len() ==> (#[trigger] s[i]).due.wf(),
    ensures
        0 <= min_idx(s) < s.len(),
        forall|j: int|
            0 <= j < s.len() ==> s[min_idx(s)].due.spec_le(#[trigger] s[j].due),
        forall|j: int|
            0 <= j < min_idx(s) ==> s[min_idx(s)].due.spec_lt(#[trigger] s[j].due),
    decreases s.len(),
{
    if s.len() > 1 {
        let sd = s.drop_last();
        assert(forall|i: int| 0 <= i < s.len() - 1 ==> #[trigger] sd[i] == s[i]);
        lemma_min_idx(sd);
        let j = min_idx(sd);
        if s.last().due.spec_lt(sd[j].due) {
            assert(min_idx(s) == s.len() - 1);
            assert forall|i: int|
                0 <= i < s.len() implies s[min_idx(s)].due.spec_le(
                #[trigger] s[i].due,
            ) by {
                if i < s.len() - 1 {
                    assert(sd[i] == s[i]);
                    assert(sd[j].due.spec_le(sd[i].due));
                    crate::time::lemma_lt_le_trans(s.last().due, sd[j].due, s[i].due);
                }
            }
            assert forall|i: int|
                0 <= i < min_idx(s) implies s[min_idx(s)].due.spec_lt(
                #[trigger] s[i].due,
            ) by {
                assert(sd[i] == s[i]);
                assert(sd[j].due.spec_le(sd[i].due));
                crate::time::lemma_lt_le_trans(s.last().due, sd[j].due, s[i].due);
            }
        } else {
            assert(min_idx(s) == j);
            assert(s[j] == sd[j]);
            assert forall|i: int|
                0 <= i < s.len() implies s[min_idx(s)].due.spec_le(
                #[trigger] s[i].due,
            ) by {
                if i < s.len() - 1 {
                    assert(sd[i] == s[i]);
                    assert(sd[j].due.spec_le(sd[i].due));
                }
            }
            assert forall|i: int|
                0 <= i < min_idx(s) implies s[min_idx(s)].due.spec_lt(
                #[trigger] s[i].due,
            ) by {
                assert(sd[i] == s[i]);
                assert(sd[j].due.spec_lt(sd[i].due));
            }
        }
    }
}

/// Successive minima never decrease: what a pop would yield after the
/// current minimum is removed is due no earlier than that minimum. Applied
/// across a whole run, the due times of popped entries form a
/// non-decreasing sequence.
pub proof fn lemma_pop_min_monotone<P>(s: Seq<Pending<P>>)
    requires
        s.len() >= 2,
        forall|i: int| 0 <= i < s.len() ==> (#[trigger] s[i]).due.wf(),
    ensures
        ({
            let rest = s.remove(min_idx(s));
            s[min_idx(s)].due.spec_le(rest[min_idx(rest)].due)
        }),
{
    lemma_min_idx(s);
    let i = min_idx(s);
    let rest = s.remove(i);
    assert forall|k: int| 0 <= k < rest.len() implies (#[trigger] rest[k]).due.wf() by {
        if k < i {
            assert(rest[k] == s[k]);
        } else {
            assert(rest[k] == s[k + 1]);
        }
    }
    lemma_min_idx(rest);
    let j = min_idx(rest);
    if j < i {
        assert(rest[j] == s[j]);
    } else {
        assert(rest[j] == s[j + 1]);
    }
}

/// A time-ordered queue of pending work.
///
/// The representation is a plain vector; `pop_min` scans for the first
/// minimal due time, so ties are broken deterministically in favour of the
/// earliest push.
pub struct EventQueue<P> {
    items: Vec<Pending<P>>,
}

impl<P> View for EventQueue<P> {
    type V = Seq<Pending<P>>;

    closed spec fn view(&self) -> Seq<Pending<P>> {
        self.items@
    }
}

impl<P> EventQueue<P> {
    /// Every pending due time is well formed.
    pub open spec fn wf(self) -> bool {
        forall|i: int| 0 <= i < self@.len() ==> (#[trigger] self@[i]).due.wf()
    }

    /// An empty queue.
    pub fn new() -> (q: EventQueue<P>)
        ensures
            q@ == Seq::<Pending<P>>::empty(),
            q.wf(),
    {
        EventQueue { items: Vec::new() }
    }

    /// The number of pending entries.
    pub fn len(&self) -> (n: usize)
        ensures
            n == self@.len(),
    {
        self.items.len()
    }

    /// Whether nothing is pending.
    pub fn is_empty(&self) -> (r: bool)
        ensures
            r == (self@.len() == 0),
    {
        self.items.is_empty()
    }

    /// Admits an entry; never fails.
    pub fn push(&mut self, payload: P, due: Time)
        requires
            old(self).wf(),
            due.wf(),
        ensures
            final(self)@ == old(self)@.push(Pending { payload, due }),
            final(self).wf(),
    {
        self.items.push(Pending { payload, due });
        proof {
            assert forall|i: int|
                0 <= i < self@.len() implies (#[trigger] self@[i]).due.wf() by {
                if i < self@.len() - 1 {
                    assert(self@[i] == old(self)@[i]);
                }
            }
        }
    }

    /// The minimal pending due time, without mutating; `None` when empty.
    pub fn peek_min_time(&self) -> (r: Option<Time>)
        requires
            self.wf(),
        ensures
            r == (if self@.len() == 0 {
                None::<Time>
            } else {
                Some(self@[min_idx(self@)].due)
            }),
    {
        proof {
            if self@.len() > 0 {
                lemma_min_idx(self@);
            }
        }
        match self.find_min() {
            None => None,
            Some(i) => {
                Some(self.items[i].due)
            },
        }
    }

    /// Removes and returns an entry with the globally minimal due time, or
    /// `None` when nothing is pending. Among equal due times the
    /// earliest-pushed entry leaves first.
    pub fn pop_min(&mut self) -> (r: Option<Pending<P>>)
        requires
            old(self).wf(),
        ensures
            old(self)@.len() == 0 ==> r == None::<Pending<P>> && final(self)@ == old(self)@,
            old(self)@.len() > 0 ==> {
                &&& r == Some(old(self)@[min_idx(old(self)@)])
                &&& final(self)@ == old(self)@.remove(min_idx(old(self)@))
            },
            final(self).wf(),
            match r {
                Some(p) => forall|j: int|
                    0 <= j < old(self)@.len() ==> p.due.spec_le(
                        (#[trigger] old(self)@[j]).due,
                    ),
                None => old(self)@.len() == 0,
            },
    {
        proof {
            if self@.len() > 0 {
                lemma_min_idx(self@);
            }
        }
        match self.find_min() {
            None => None,
            Some(i) => {
                let p = self.items.remove(i);
                proof {
                    assert forall|k: int|
                        0 <= k < self@.len() implies (#[trigger] self@[k]).due.wf() by {
                        assert(self@ == old(self)@.remove(min_idx(old(self)@)));
                        if k < min_idx(old(self)@) {
                            assert(self@[k] == old(self)@[k]);
                        } else {
                            assert(self@[k] == old(self)@[k + 1]);
                        }
                    }
                }
                Some(p)
            },
        }
    }

    /// The index `min_idx` of the first minimal due time, or `None` when empty.
    fn find_min(&self) -> (r: Option<usize>)
        requires
            self.wf(),
        ensures
            self@.len() == 0 ==> r == None::<usize>,
            self@.len() > 0 ==> (r matches Some(i) && i == min_idx(self@)),
    {
        let n = self.items.len();
        if n == 0 {
            return None;
        }
        let mut best: usize = 0;
        let mut i: usize = 1;
        while i < n
            invariant
                self.wf(),
                n == self@.len(),
                1 <= i <= n,
                0 <= best < i,
                best == min_idx(self@.take(i as int)),
            decreases n - i,
        {
            proof {
                lemma_min_idx(self@.take(i as int));
                assert(self@.take(i + 1).drop_last() =~= self@.take(i as int));
                assert(self@.take(i + 1).last() == self@[i as int]);
            }
            if self.items[i].lt_due(&self.items[best]) {
                best = i;
            }
            i = i + 1;
        }
        proof {
            assert(self@.take(n as int) =~= self@);
        }
        Some(best)
    }
}

impl<P> Pending<P> {
    /// Whether this entry is due strictly before `other`.
    fn lt_due(&self, other: &Pending<P>) -> (r: bool)
        ensures
            r == self.due.spec_lt(other.due),
    {
        self.due.lt(&other.due)
    }
}

} // verus!
