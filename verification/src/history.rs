//! A bounded history: it keeps the most recent entries pushed into it, up to
//! a fixed capacity, oldest first.
use std::collections::VecDeque;
use vstd::prelude::*;

verus! {

/// The last `n` entries of `s` (all of them when there are no more than `n`).
pub open spec fn keep_last<T>(s: Seq<T>, n: nat) -> Seq<T> {
    if s.len() > n {
        s.skip(s.len() - n)
    } else {
        s
    }
}

/// The history that results from pushing `items` one by one into `start`
/// with capacity `n`.
pub open spec fn push_all<T>(start: Seq<T>, items: Seq<T>, n: nat) -> Seq<T>
    decreases items.len(),
{
    if items.len() == 0 {
        start
    } else {
        push_all(keep_last(start.push(items[0]), n), items.drop_first(), n)
    }
}

/// Dropping old entries before or after a push gives the same history.
pub proof fn lemma_keep_last_push<T>(s: Seq<T>, x: T, n: nat)
    ensures
        keep_last(keep_last(s, n).push(x), n) == keep_last(s.push(x), n),
{
    assert(keep_last(keep_last(s, n).push(x), n) =~= keep_last(s.push(x), n));
}

/// Law: a history holds exactly the last `n` entries of everything that was
/// pushed into it, whatever it held before those entries that still fit.
pub proof fn law_history_keeps_last<T>(start: Seq<T>, items: Seq<T>, n: nat)
    ensures
        push_all(keep_last(start, n), items, n) == keep_last(start + items, n),
    decreases items.len(),
{
    if items.len() == 0 {
        assert(start + items =~= start);
        assert(keep_last(keep_last(start, n), n) =~= keep_last(start, n));
    } else {
        lemma_keep_last_push(start, items[0], n);
        law_history_keeps_last(start.push(items[0]), items.drop_first(), n);
        assert(start.push(items[0]) + items.drop_first() =~= start + items);
    }
}

/// Law: a history that starts empty holds the last `n` entries pushed.
pub proof fn law_history_from_empty<T>(items: Seq<T>, n: nat)
    ensures
        push_all(Seq::<T>::empty(), items, n) == keep_last(items, n),
{
    law_history_keeps_last(Seq::<T>::empty(), items, n);
    assert(keep_last(Seq::<T>::empty(), n) =~= Seq::<T>::empty());
    assert(Seq::<T>::empty() + items =~= items);
}

/// Entries, oldest first, never more than `capacity` of them.
pub struct History<T> {
    items: VecDeque<T>,
    capacity: usize,
}

impl<T> View for History<T> {
    type V = Seq<T>;

    closed spec fn view(&self) -> Seq<T> {
        self.items@
    }
}

impl<T> History<T> {
    #[verifier::type_invariant]
    spec fn within_capacity(self) -> bool {
        self.items@.len() <= self.capacity
    }

    /// Most entries that the history keeps.
    pub closed spec fn cap(&self) -> nat {
        self.capacity as nat
    }

    /// An empty history that keeps up to `capacity` entries.
    pub fn new(capacity: usize) -> (h: Self)
        ensures
            h@ == Seq::<T>::empty(),
            h.cap() == capacity,
    {
        History { items: VecDeque::new(), capacity }
    }

    pub fn capacity(&self) -> (c: usize)
        ensures
            c == self.cap(),
    {
        self.capacity
    }

    pub fn len(&self) -> (n: usize)
        ensures
            n == self@.len(),
            n <= self.cap(),
    {
        proof {
            use_type_invariant(self);
        }
        self.items.len()
    }

    /// Appends `x`, dropping the oldest entries beyond the capacity.
    pub fn push(&mut self, x: T)
        ensures
            final(self)@ == keep_last(old(self)@.push(x), old(self).cap()),
            final(self).cap() == old(self).cap(),
    {
        proof {
            use_type_invariant(&*self);
        }
        let ghost before = self.items@;
        let mut items: VecDeque<T> = VecDeque::new();
        std::mem::swap(&mut items, &mut self.items);
        if self.capacity > 0 {
            if items.len() == self.capacity {
                let _ = items.pop_front();
            }
            items.push_back(x);
            assert(items@ =~= keep_last(before.push(x), self.capacity as nat));
        } else {
            assert(keep_last(before.push(x), 0) =~= Seq::<T>::empty());
        }
        self.items = items;
    }

    /// Removes every entry.
    pub fn clear(&mut self)
        ensures
            final(self)@ == Seq::<T>::empty(),
            final(self).cap() == old(self).cap(),
    {
        self.items = VecDeque::new();
    }

    /// The entries, oldest first.
    pub fn entries(&self) -> (v: &VecDeque<T>)
        ensures
            v@ == self@,
    {
        &self.items
    }

    /// The newest entry.
    pub fn newest(&self) -> (r: Option<&T>)
        ensures
            match r {
                Some(x) => self@.len() > 0 && *x == self@.last(),
                None => self@.len() == 0,
            },
    {
        let n = self.items.len();
        if n == 0 {
            None
        } else {
            Some(&self.items[n - 1])
        }
    }
}

} // verus!
