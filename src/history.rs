use std::collections::VecDeque;
use vstd::prelude::*;

verus! {

/// Capacity of every per-interface series.
pub const DEFAULT_HISTORY_SIZE: usize = 60;

/// The last `n` items of `s` (all of `s` when it is shorter).
pub open spec fn last_n<V>(s: Seq<V>, n: nat) -> Seq<V> {
    if s.len() <= n {
        s
    } else {
        s.subrange(s.len() - n, s.len() as int)
    }
}

/// What a buffer holding `start` holds after `vs` were added one by one, oldest first.
pub open spec fn after_adds<V>(start: Seq<V>, cap: nat, vs: Seq<V>) -> Seq<V>
    decreases vs.len(),
{
    if vs.len() == 0 {
        start
    } else {
        last_n(after_adds(start, cap, vs.drop_last()).push(vs.last()), cap)
    }
}

/// Which way the traffic of a series flows; it picks the label and color only.
#[derive(Clone, Copy, Debug, PartialEq, Eq, Structural)]
pub enum Direction {
    Download,
    Upload,
}

/// Fixed-capacity FIFO: adding to a full buffer evicts its oldest value.
pub struct History<V> {
    store: VecDeque<V>,
    max_size: usize,
}

impl<V> View for History<V> {
    type V = Seq<V>;

    closed spec fn view(&self) -> Seq<V> {
        self.store@
    }
}

impl<V> History<V> {
    pub closed spec fn capacity(&self) -> nat {
        self.max_size as nat
    }

    pub closed spec fn wf(&self) -> bool {
        &&& self.max_size >= 1
        &&& self.store@.len() <= self.max_size
    }

    pub fn new(max_size: usize) -> (r: Self)
        requires
            max_size >= 1,
        ensures
            r.wf(),
            r@ == Seq::<V>::empty(),
            r.capacity() == max_size,
    {
        History { store: VecDeque::with_capacity(max_size), max_size }
    }

    pub fn add(&mut self, value: V)
        requires
            old(self).wf(),
        ensures
            final(self).wf(),
            final(self).capacity() == old(self).capacity(),
            final(self)@ == last_n(old(self)@.push(value), old(self).capacity()),
    {
        if self.store.len() >= self.max_size {
            self.store.pop_front();
        }
        self.store.push_back(value);
        proof {
            let s = old(self)@.push(value);
            if s.len() > self.max_size {
                assert(self.store@ =~= s.subrange(s.len() - self.max_size, s.len() as int));
            }
        }
    }

    pub fn values(&self) -> (r: &VecDeque<V>)
        ensures
            r@ == self@,
    {
        &self.store
    }

    pub fn max_size(&self) -> (r: usize)
        ensures
            r == self.capacity(),
    {
        self.max_size
    }
}

/// Adding one value after another to a buffer of capacity `cap` leaves exactly the
/// last `cap` values ever held or added, in the order they came: once more than
/// `cap` values went in, the buffer is full and holds the newest `cap` of them.
pub proof fn lemma_adds_keep_last<V>(start: Seq<V>, cap: nat, vs: Seq<V>)
    requires
        cap >= 1,
        start.len() <= cap,
    ensures
        after_adds(start, cap, vs) == last_n(start + vs, cap),
        start.len() + vs.len() >= cap ==> after_adds(start, cap, vs).len() == cap,
    decreases vs.len(),
{
    if vs.len() == 0 {
        assert(start + vs =~= start);
    } else {
        let prev = vs.drop_last();
        lemma_adds_keep_last(start, cap, prev);
        let all = start + vs;
        assert(all =~= (start + prev).push(vs.last()));
        let p = last_n(start + prev, cap);
        assert(last_n(p.push(vs.last()), cap) =~= last_n(all, cap));
    }
}

} // verus!
