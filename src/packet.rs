use std::collections::VecDeque;
use vstd::arithmetic::div_mod::lemma_fundamental_div_mod_converse;
use vstd::prelude::*;

use crate::history::{last_n, Direction, History, DEFAULT_HISTORY_SIZE};

verus! {

/// How many bars each sample gets on a strip `width` cells wide when the series
/// holds at most `cap` samples: `width / cap` rounded up, and at least one.
pub open spec fn replication(width: nat, cap: nat) -> nat {
    let f = (width + cap - 1) / (cap as int);
    if f < 1 {
        1
    } else {
        f as nat
    }
}

/// The bars for window `w`, newest sample first, each sample repeated `f` times.
pub open spec fn sparkline(w: Seq<u64>, f: nat) -> Seq<u64> {
    Seq::new(w.len() * f, |i: int| w[w.len() - 1 - i / (f as int)])
}

/// Everything a packet series has been given: its direction, and every count ever
/// added, oldest first.
pub struct PacketView {
    pub direction: Direction,
    pub counts: Seq<u64>,
}

impl PacketView {
    /// The counts still buffered: the newest `DEFAULT_HISTORY_SIZE` of them.
    pub open spec fn window(self) -> Seq<u64> {
        last_n(self.counts, DEFAULT_HISTORY_SIZE as nat)
    }
}

/// A rolling window of packet counts of one direction of one interface.
pub struct PacketHistory {
    history: History<u64>,
    direction: Direction,
    counts: Ghost<Seq<u64>>,
}

impl View for PacketHistory {
    type V = PacketView;

    closed spec fn view(&self) -> PacketView {
        PacketView { direction: self.direction, counts: self.counts@ }
    }
}

impl PacketHistory {
    pub closed spec fn wf(&self) -> bool {
        &&& self.history.wf()
        &&& self.history.capacity() == DEFAULT_HISTORY_SIZE
        &&& self.history@ == last_n(self.counts@, DEFAULT_HISTORY_SIZE as nat)
    }

    pub fn new(direction: Direction) -> (r: Self)
        ensures
            r.wf(),
            r@.direction == direction,
            r@.counts == Seq::<u64>::empty(),
    {
        PacketHistory {
            history: History::new(DEFAULT_HISTORY_SIZE),
            direction,
            counts: Ghost(Seq::empty()),
        }
    }

    pub fn download() -> (r: Self)
        ensures
            r.wf(),
            r@.direction == Direction::Download,
            r@.counts == Seq::<u64>::empty(),
    {
        Self::new(Direction::Download)
    }

    pub fn upload() -> (r: Self)
        ensures
            r.wf(),
            r@.direction == Direction::Upload,
            r@.counts == Seq::<u64>::empty(),
    {
        Self::new(Direction::Upload)
    }

    /// Adds a packet count, evicting the oldest buffered one when the window is full.
    pub fn add_bar(&mut self, value: u64)
        requires
            old(self).wf(),
        ensures
            final(self).wf(),
            final(self)@.direction == old(self)@.direction,
            final(self)@.counts == old(self)@.counts.push(value),
    {
        self.history.add(value);
        let ghost prev = self.counts@;
        self.counts = Ghost(prev.push(value));
        proof {
            let s = prev.push(value);
            if prev.len() >= DEFAULT_HISTORY_SIZE {
                assert(last_n(last_n(prev, DEFAULT_HISTORY_SIZE as nat).push(value), DEFAULT_HISTORY_SIZE as nat)
                    =~= last_n(s, DEFAULT_HISTORY_SIZE as nat));
            }
        }
    }

    pub fn direction(&self) -> (r: Direction)
        ensures
            r == self@.direction,
    {
        self.direction
    }

    /// The buffered window, oldest first.
    pub fn values(&self) -> (r: &VecDeque<u64>)
        requires
            self.wf(),
        ensures
            r@ == self@.window(),
    {
        self.history.values()
    }

    /// The bars of a sparkline `width` cells wide: the buffered counts newest first,
    /// each repeated as often as the width allows for a full window, and at least once.
    pub fn bars(&self, width: u16) -> (r: Vec<u64>)
        requires
            self.wf(),
        ensures
            r@ == sparkline(
                self@.window(),
                replication(width as nat, DEFAULT_HISTORY_SIZE as nat),
            ),
    {
        let w = self.history.values();
        let cap = self.history.max_size();
        let ceil = (width as usize + cap - 1) / cap;
        let f: usize = if ceil < 1 {
            1
        } else {
            ceil
        };
        let n = w.len();
        assert(f <= 1093);
        let ghost fi = f as int;
        let mut out: Vec<u64> = Vec::new();
        let mut j: usize = 0;
        while j < n
            invariant
                n == w@.len(),
                n <= 60,
                1 <= f <= 1093,
                fi == f,
                j <= n,
                out@.len() == j * f,
                forall|i: int| 0 <= i < out@.len() ==> #[trigger] out@[i] == w@[n - 1 - i / fi],
            decreases n - j,
        {
            let v = w[n - 1 - j];
            let mut k: usize = 0;
            while k < f
                invariant
                    n == w@.len(),
                    1 <= f <= 1093,
                    fi == f,
                    j < n <= 60,
                    k <= f,
                    v == w@[n - 1 - j],
                    out@.len() == j * f + k,
                    forall|i: int| 0 <= i < out@.len() ==> #[trigger] out@[i] == w@[n - 1 - i / fi],
                decreases f - k,
            {
                proof {
                    assert(j * f + k < 60 * 1093) by (nonlinear_arith)
                        requires
                            j < 60,
                            k < f,
                            f <= 1093,
                    ;
                    lemma_fundamental_div_mod_converse((j * f + k) as int, fi, j as int, k as int);
                }
                out.push(v);
                k = k + 1;
            }
            proof {
                assert((j + 1) * f == j * f + f) by (nonlinear_arith);
            }
            j = j + 1;
        }
        proof {
            assert(out@ =~= sparkline(w@, f as nat));
        }
        out
    }
}

} // verus!
