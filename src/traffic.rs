use std::collections::VecDeque;
use vstd::prelude::*;

use crate::format::{decimal, format_ratio, format_spec, push_decimal};
use crate::history::{last_n, Direction, History, DEFAULT_HISTORY_SIZE};

verus! {

/// The smallest byte count among `points`; `u64::MAX` when there is none.
pub open spec fn min_bytes(points: Seq<(u64, u64)>) -> u64
    decreases points.len(),
{
    if points.len() == 0 {
        u64::MAX
    } else {
        let m = min_bytes(points.drop_last());
        if points.last().1 < m {
            points.last().1
        } else {
            m
        }
    }
}

/// The largest byte count among `points`; 0 when there is none.
pub open spec fn max_bytes(points: Seq<(u64, u64)>) -> u64
    decreases points.len(),
{
    if points.len() == 0 {
        0
    } else {
        let m = max_bytes(points.drop_last());
        if points.last().1 > m {
            points.last().1
        } else {
            m
        }
    }
}

/// The sum of the byte counts of `points`.
pub open spec fn sum_bytes(points: Seq<(u64, u64)>) -> nat
    decreases points.len(),
{
    if points.len() == 0 {
        0
    } else {
        sum_bytes(points.drop_last()) + points.last().1 as nat
    }
}

/// A time in seconds as an axis label: `5s`.
pub open spec fn time_label(t: nat) -> Seq<char> {
    decimal(t) + seq!['s']
}

/// The time halfway between `a` and `b`, with one decimal: `2.5s`.
pub open spec fn mid_time_label(a: nat, b: nat) -> Seq<char> {
    decimal((a + b) / 2) + seq!['.', if (a + b) % 2 == 0 { '0' } else { '5' }, 's']
}

/// Everything a traffic series has been given: its direction, and every
/// (elapsed seconds, byte count) point ever added, oldest first.
pub struct TrafficView {
    pub direction: Direction,
    pub points: Seq<(u64, u64)>,
}

impl TrafficView {
    /// The points still buffered: the newest `DEFAULT_HISTORY_SIZE` of them.
    pub open spec fn window(self) -> Seq<(u64, u64)> {
        last_n(self.points, DEFAULT_HISTORY_SIZE as nat)
    }
}

/// What a chart of a traffic series shows, ready for a widget to draw.
pub struct TrafficChart {
    /// First and last time of the buffered window.
    pub x_bounds: (u64, u64),
    /// Zero and the largest byte count of the buffered window.
    pub y_bounds: (u64, u64),
    /// Start, middle and end of the time axis.
    pub x_labels: (String, String, String),
    /// Start, middle and end of the byte axis, as rates.
    pub y_labels: (String, String, String),
    /// The newest byte count, as a rate.
    pub current: String,
    /// The lifetime average, as a rate.
    pub average: String,
    /// The lifetime minimum, as a rate.
    pub min: String,
    /// The lifetime maximum, as a rate.
    pub max: String,
    /// The lifetime sum, as a quantity.
    pub total: String,
}

/// A rolling window of (elapsed seconds, byte count) points of one direction of
/// one interface, with the minimum, maximum, sum and count of every byte count
/// ever added, evicted ones included.
pub struct TrafficHistory {
    history: History<(u64, u64)>,
    direction: Direction,
    min_value: u64,
    max_value: u64,
    total: u128,
    samples: u64,
    points: Ghost<Seq<(u64, u64)>>,
}

impl View for TrafficHistory {
    type V = TrafficView;

    closed spec fn view(&self) -> TrafficView {
        TrafficView { direction: self.direction, points: self.points@ }
    }
}

proof fn lemma_sum_bound(points: Seq<(u64, u64)>)
    ensures
        sum_bytes(points) <= points.len() * (u64::MAX as nat),
    decreases points.len(),
{
    if points.len() > 0 {
        lemma_sum_bound(points.drop_last());
    }
}

/// The lifetime minimum and maximum bound every byte count ever added, and the
/// lifetime sum counts each of them once, however many the window has evicted.
pub proof fn lemma_lifetime_aggregates(points: Seq<(u64, u64)>)
    ensures
        forall|i: int|
            0 <= i < points.len() ==> min_bytes(points) <= #[trigger] points[i].1 <= max_bytes(
                points,
            ),
        sum_bytes(points) == sum_bytes(points.subrange(0, points.len() - last_n(points, DEFAULT_HISTORY_SIZE as nat).len()))
            + sum_bytes(last_n(points, DEFAULT_HISTORY_SIZE as nat)),
    decreases points.len(),
{
    if points.len() > 0 {
        let p = points.drop_last();
        lemma_lifetime_aggregates(p);
        assert forall|i: int| 0 <= i < points.len() implies min_bytes(points) <= #[trigger] points[i].1
            <= max_bytes(points) by {
            if i < p.len() {
                assert(points[i] == p[i]);
            }
        }
    }
    let w = last_n(points, DEFAULT_HISTORY_SIZE as nat);
    let k = points.len() - w.len();
    assert(points =~= points.subrange(0, k) + w);
    lemma_sum_concat(points.subrange(0, k), w);
}

proof fn lemma_sum_concat(a: Seq<(u64, u64)>, b: Seq<(u64, u64)>)
    ensures
        sum_bytes(a + b) == sum_bytes(a) + sum_bytes(b),
    decreases b.len(),
{
    if b.len() == 0 {
        assert(a + b =~= a);
    } else {
        lemma_sum_concat(a, b.drop_last());
        assert((a + b).drop_last() =~= a + b.drop_last());
    }
}

impl TrafficHistory {
    pub closed spec fn wf(&self) -> bool {
        &&& self.history.wf()
        &&& self.history.capacity() == DEFAULT_HISTORY_SIZE
        &&& self.history@ == last_n(self.points@, DEFAULT_HISTORY_SIZE as nat)
        &&& self.min_value == min_bytes(self.points@)
        &&& self.max_value == max_bytes(self.points@)
        &&& self.total == sum_bytes(self.points@)
        &&& self.samples == self.points@.len()
    }

    pub fn new(direction: Direction) -> (r: Self)
        ensures
            r.wf(),
            r@.direction == direction,
            r@.points == Seq::<(u64, u64)>::empty(),
    {
        TrafficHistory {
            history: History::new(DEFAULT_HISTORY_SIZE),
            direction,
            min_value: u64::MAX,
            max_value: 0,
            total: 0,
            samples: 0,
            points: Ghost(Seq::empty()),
        }
    }

    pub fn download() -> (r: Self)
        ensures
            r.wf(),
            r@.direction == Direction::Download,
            r@.points == Seq::<(u64, u64)>::empty(),
    {
        Self::new(Direction::Download)
    }

    pub fn upload() -> (r: Self)
        ensures
            r.wf(),
            r@.direction == Direction::Upload,
            r@.points == Seq::<(u64, u64)>::empty(),
    {
        Self::new(Direction::Upload)
    }

    /// Adds a (elapsed seconds, byte count) point, evicting the oldest buffered one
    /// when the window is full, and folds the byte count into the lifetime figures.
    pub fn add_point(&mut self, value: (u64, u64))
        requires
            old(self).wf(),
            old(self)@.points.len() < u64::MAX,
        ensures
            final(self).wf(),
            final(self)@.direction == old(self)@.direction,
            final(self)@.points == old(self)@.points.push(value),
    {
        self.history.add(value);
        let ghost prev = self.points@;
        proof {
            lemma_sum_bound(prev);
            assert(prev.len() * (u64::MAX as nat) + (u64::MAX as nat) <= u128::MAX) by (
            nonlinear_arith)
                requires
                    prev.len() < u64::MAX,
            ;
        }
        let (_, y) = value;
        if y < self.min_value {
            self.min_value = y;
        }
        if y > self.max_value {
            self.max_value = y;
        }
        self.total = self.total + y as u128;
        self.samples = self.samples + 1;
        self.points = Ghost(prev.push(value));
        proof {
            assert(self.points@.drop_last() =~= prev);
            let s = prev.push(value);
            if prev.len() >= DEFAULT_HISTORY_SIZE {
                assert(last_n(last_n(prev, DEFAULT_HISTORY_SIZE as nat).push(value), DEFAULT_HISTORY_SIZE as nat)
                    =~= last_n(s, DEFAULT_HISTORY_SIZE as nat));
            }
        }
    }

    /// The lifetime average byte count rounded down, or `None` before the first point.
    pub fn average_value(&self) -> (r: Option<u128>)
        requires
            self.wf(),
        ensures
            self@.points.len() == 0 ==> r is None,
            self@.points.len() > 0 ==> r == Some((sum_bytes(self@.points) / self@.points.len()) as u128),
    {
        if self.samples == 0 {
            None
        } else {
            Some(self.total / self.samples as u128)
        }
    }

    pub fn min_value(&self) -> (r: u64)
        requires
            self.wf(),
        ensures
            r == min_bytes(self@.points),
    {
        self.min_value
    }

    pub fn max_value(&self) -> (r: u64)
        requires
            self.wf(),
        ensures
            r == max_bytes(self@.points),
    {
        self.max_value
    }

    pub fn total(&self) -> (r: u128)
        requires
            self.wf(),
        ensures
            r == sum_bytes(self@.points),
    {
        self.total
    }

    pub fn samples(&self) -> (r: u64)
        requires
            self.wf(),
        ensures
            r == self@.points.len(),
    {
        self.samples
    }

    pub fn direction(&self) -> (r: Direction)
        ensures
            r == self@.direction,
    {
        self.direction
    }

    /// The buffered window, oldest first.
    pub fn values(&self) -> (r: &VecDeque<(u64, u64)>)
        requires
            self.wf(),
        ensures
            r@ == self@.window(),
    {
        self.history.values()
    }
}

fn time_label_exec(t: u64) -> (r: String)
    ensures
        r@ == time_label(t as nat),
{
    let mut s = String::new();
    push_decimal(&mut s, t as u128);
    proof {
        reveal_strlit("s");
    }
    s.append("s");
    s
}

fn mid_time_label_exec(a: u64, b: u64) -> (r: String)
    ensures
        r@ == mid_time_label(a as nat, b as nat),
{
    let sum = a as u128 + b as u128;
    let mut s = String::new();
    push_decimal(&mut s, sum / 2);
    proof {
        reveal_strlit(".0s");
        reveal_strlit(".5s");
    }
    if sum % 2 == 0 {
        s.append(".0s");
    } else {
        s.append(".5s");
    }
    s
}

/// The largest byte count in a non-empty window.
fn window_max(w: &VecDeque<(u64, u64)>) -> (r: u64)
    ensures
        r == max_bytes(w@),
{
    let mut m: u64 = 0;
    let mut i: usize = 0;
    while i < w.len()
        invariant
            i <= w@.len(),
            m == max_bytes(w@.subrange(0, i as int)),
        decreases w@.len() - i,
    {
        let y = w[i].1;
        proof {
            assert(w@.subrange(0, i + 1).drop_last() =~= w@.subrange(0, i as int));
        }
        if y > m {
            m = y;
        }
        i = i + 1;
    }
    proof {
        assert(w@.subrange(0, w@.len() as int) =~= w@);
    }
    m
}

impl TrafficHistory {
    /// Shapes the buffered window into a chart: the time axis spans the window,
    /// the byte axis runs from zero to the window's largest byte count, and the
    /// figures above the chart come from the newest point and the lifetime values.
    /// Counters are plotted as they come: where one goes down (a counter or an
    /// interface was reset), the lower value is drawn as it is, no delta is taken,
    /// and the byte axis still starts at zero.
    pub fn chart(&self) -> (r: TrafficChart)
        requires
            self.wf(),
            self@.window().len() > 0,
        ensures
            ({
                let w = self@.window();
                let pts = self@.points;
                let first = w[0];
                let last = w[w.len() - 1];
                let top = max_bytes(w);
                &&& r.x_bounds == (first.0, last.0)
                &&& r.y_bounds == (0u64, top)
                &&& r.x_labels.0@ == time_label(first.0 as nat)
                &&& r.x_labels.1@ == mid_time_label(first.0 as nat, last.0 as nat)
                &&& r.x_labels.2@ == time_label(last.0 as nat)
                &&& r.y_labels.0@ == format_spec(0, 1, true)
                &&& r.y_labels.1@ == format_spec(top as nat, 2, true)
                &&& r.y_labels.2@ == format_spec(top as nat, 1, true)
                &&& r.current@ == format_spec(last.1 as nat, 1, true)
                &&& r.average@ == format_spec(sum_bytes(pts), pts.len(), true)
                &&& r.min@ == format_spec(min_bytes(pts) as nat, 1, true)
                &&& r.max@ == format_spec(max_bytes(pts) as nat, 1, true)
                &&& r.total@ == format_spec(sum_bytes(pts), 1, false)
            }),
    {
        let w = self.history.values();
        let n = w.len();
        let first = w[0];
        let last = w[n - 1];
        let top = window_max(w);
        proof {
            if self.points@.len() == 0 {
                assert(last_n(self.points@, DEFAULT_HISTORY_SIZE as nat).len() == 0);
            }
        }
        TrafficChart {
            x_bounds: (first.0, last.0),
            y_bounds: (0, top),
            x_labels: (
                time_label_exec(first.0),
                mid_time_label_exec(first.0, last.0),
                time_label_exec(last.0),
            ),
            y_labels: (
                format_ratio(0, 1, true),
                format_ratio(top as u128, 2, true),
                format_ratio(top as u128, 1, true),
            ),
            current: format_ratio(last.1 as u128, 1, true),
            average: format_ratio(self.total, self.samples, true),
            min: format_ratio(self.min_value as u128, 1, true),
            max: format_ratio(self.max_value as u128, 1, true),
            total: format_ratio(self.total, 1, false),
        }
    }
}

} // verus!
