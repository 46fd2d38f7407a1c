use vstd::prelude::*;

use crate::history::Direction;
use crate::packet::{PacketHistory, PacketView};
use crate::traffic::{TrafficHistory, TrafficView};

verus! {

/// One interface's cumulative counters as read on one tick.
pub struct InterfaceSample {
    pub name: String,
    pub rx_bytes: u64,
    pub tx_bytes: u64,
    pub rx_packets: u64,
    pub tx_packets: u64,
}

/// The four series kept for one interface.
pub struct InterfaceHistory {
    pub name: String,
    pub rx_traffic: TrafficHistory,
    pub tx_traffic: TrafficHistory,
    pub rx_packets: PacketHistory,
    pub tx_packets: PacketHistory,
}

pub struct InterfaceView {
    pub name: Seq<char>,
    pub rx_traffic: TrafficView,
    pub tx_traffic: TrafficView,
    pub rx_packets: PacketView,
    pub tx_packets: PacketView,
}

impl View for InterfaceHistory {
    type V = InterfaceView;

    open spec fn view(&self) -> InterfaceView {
        InterfaceView {
            name: self.name@,
            rx_traffic: self.rx_traffic@,
            tx_traffic: self.tx_traffic@,
            rx_packets: self.rx_packets@,
            tx_packets: self.tx_packets@,
        }
    }
}

impl InterfaceHistory {
    /// Each series is well formed, and all four have been given the same number of values.
    pub open spec fn wf(&self) -> bool {
        &&& self.rx_traffic.wf()
        &&& self.tx_traffic.wf()
        &&& self.rx_packets.wf()
        &&& self.tx_packets.wf()
        &&& self.tx_traffic@.points.len() == self.rx_traffic@.points.len()
        &&& self.rx_packets@.counts.len() == self.rx_traffic@.points.len()
        &&& self.tx_packets@.counts.len() == self.rx_traffic@.points.len()
    }

    /// How many ticks have fed this interface.
    pub open spec fn count(&self) -> nat {
        self.rx_traffic@.points.len()
    }
}

/// The series of an interface seen for the first time, before any value.
pub open spec fn fresh(name: Seq<char>) -> InterfaceView {
    InterfaceView {
        name,
        rx_traffic: TrafficView { direction: Direction::Download, points: Seq::empty() },
        tx_traffic: TrafficView { direction: Direction::Upload, points: Seq::empty() },
        rx_packets: PacketView { direction: Direction::Download, counts: Seq::empty() },
        tx_packets: PacketView { direction: Direction::Upload, counts: Seq::empty() },
    }
}

/// `e` after the counters of `s`, read at second `t`, went into its four series.
pub open spec fn recorded(e: InterfaceView, s: InterfaceSample, t: u64) -> InterfaceView {
    InterfaceView {
        name: e.name,
        rx_traffic: TrafficView {
            direction: e.rx_traffic.direction,
            points: e.rx_traffic.points.push((t, s.rx_bytes)),
        },
        tx_traffic: TrafficView {
            direction: e.tx_traffic.direction,
            points: e.tx_traffic.points.push((t, s.tx_bytes)),
        },
        rx_packets: PacketView {
            direction: e.rx_packets.direction,
            counts: e.rx_packets.counts.push(s.rx_packets),
        },
        tx_packets: PacketView {
            direction: e.tx_packets.direction,
            counts: e.tx_packets.counts.push(s.tx_packets),
        },
    }
}

/// Where the interface called `name` stands in `entries`; -1 where it is absent.
pub open spec fn position(entries: Seq<InterfaceView>, name: Seq<char>) -> int
    decreases entries.len(),
{
    if entries.len() == 0 {
        -1
    } else if entries.last().name == name {
        entries.len() - 1
    } else {
        position(entries.drop_last(), name)
    }
}

/// `entries` after one sample at second `t`: the interface's entry is fed, and an
/// interface seen for the first time gets a fresh entry at the end first.
pub open spec fn record(entries: Seq<InterfaceView>, s: InterfaceSample, t: u64) -> Seq<
    InterfaceView,
> {
    let i = position(entries, s.name@);
    if i >= 0 {
        entries.update(i, recorded(entries[i], s, t))
    } else {
        entries.push(recorded(fresh(s.name@), s, t))
    }
}

/// `entries` after each of `samples`, in order, at second `t`.
pub open spec fn record_all(entries: Seq<InterfaceView>, samples: Seq<InterfaceSample>, t: u64) -> Seq<
    InterfaceView,
>
    decreases samples.len(),
{
    if samples.len() == 0 {
        entries
    } else {
        record(record_all(entries, samples.drop_last(), t), samples.last(), t)
    }
}

/// No two of `samples` name the same interface.
pub open spec fn distinct_names(samples: Seq<InterfaceSample>) -> bool {
    forall|a: int, b: int|
        0 <= a < b < samples.len() ==> #[trigger] samples[a].name@ != #[trigger] samples[b].name@
}

/// The entry of the interface called `name` in `entries`, or a fresh one where
/// it is absent.
pub open spec fn entry_or_fresh(entries: Seq<InterfaceView>, name: Seq<char>) -> InterfaceView {
    if position(entries, name) >= 0 {
        entries[position(entries, name)]
    } else {
        fresh(name)
    }
}

proof fn lemma_position_same_names(a: Seq<InterfaceView>, b: Seq<InterfaceView>, name: Seq<char>)
    requires
        a.len() == b.len(),
        forall|i: int| 0 <= i < a.len() ==> #[trigger] a[i].name == b[i].name,
    ensures
        position(a, name) == position(b, name),
    decreases a.len(),
{
    if a.len() > 0 {
        let (da, db) = (a.drop_last(), b.drop_last());
        assert forall|i: int| 0 <= i < da.len() implies #[trigger] da[i].name == db[i].name by {
            assert(a[i].name == b[i].name);
        }
        lemma_position_same_names(da, db, name);
        assert(a[a.len() - 1].name == b[b.len() - 1].name);
    }
}

/// One tick's samples, with no name twice, feed each sampled interface exactly
/// once: its entry then holds what it held before (nothing, where the interface
/// is new) plus one value per series, read at second `t`. An interface that was
/// not sampled keeps its entry as it was, and no interface is dropped or moved.
pub proof fn lemma_record_all_feeds(entries: Seq<InterfaceView>, samples: Seq<InterfaceSample>, t: u64)
    requires
        distinct_names(samples),
    ensures
        ({
            let r = record_all(entries, samples, t);
            &&& r.len() >= entries.len()
            &&& forall|i: int| 0 <= i < entries.len() ==> #[trigger] r[i].name == entries[i].name
            &&& forall|name: Seq<char>|
                (forall|k: int| 0 <= k < samples.len() ==> #[trigger] samples[k].name@ != name) ==> {
                    &&& #[trigger] position(r, name) == position(entries, name)
                    &&& position(entries, name) >= 0 ==> r[position(entries, name)]
                        == entries[position(entries, name)]
                }
            &&& forall|k: int|
                0 <= k < samples.len() ==> {
                    &&& position(r, (#[trigger] samples[k]).name@) >= 0
                    &&& r[position(r, samples[k].name@)] == recorded(
                        entry_or_fresh(entries, samples[k].name@),
                        samples[k],
                        t,
                    )
                }
        }),
    decreases samples.len(),
{
    if samples.len() > 0 {
        let prefix = samples.drop_last();
        let s = samples.last();
        assert(distinct_names(prefix)) by {
            assert forall|a: int, b: int| 0 <= a < b < prefix.len() implies #[trigger] prefix[a].name@
                != #[trigger] prefix[b].name@ by {
                assert(prefix[a] == samples[a] && prefix[b] == samples[b]);
            }
        }
        lemma_record_all_feeds(entries, prefix, t);
        let r = record_all(entries, prefix, t);
        let r2 = record_all(entries, samples, t);
        assert(r2 == record(r, s, t));
        lemma_position(r, s.name@);
        let p = position(r, s.name@);
        assert forall|n: Seq<char>| n != s.name@ implies position(r2, n) == position(r, n) by {
            if p >= 0 {
                assert forall|i: int| 0 <= i < r2.len() implies #[trigger] r2[i].name == r[i].name by {}
                lemma_position_same_names(r2, r, n);
            } else {
                assert(r2.drop_last() =~= r);
            }
        }
        if p >= 0 {
            assert forall|i: int| 0 <= i < r2.len() implies #[trigger] r2[i].name == r[i].name by {}
            lemma_position_same_names(r2, r, s.name@);
        } else {
            assert(r2.drop_last() =~= r);
        }
        // the last sample's name was not among the earlier ones
        assert forall|k: int| 0 <= k < prefix.len() implies #[trigger] prefix[k].name@ != s.name@ by {
            assert(prefix[k] == samples[k]);
            assert(samples[k].name@ != samples[samples.len() - 1].name@);
        }
        assert forall|name: Seq<char>|
            (forall|k: int| 0 <= k < samples.len() ==> #[trigger] samples[k].name@ != name) implies {
                &&& #[trigger] position(r2, name) == position(entries, name)
                &&& position(entries, name) >= 0 ==> r2[position(entries, name)]
                    == entries[position(entries, name)]
            } by {
            assert(samples[samples.len() - 1].name@ != name);
            assert forall|k: int| 0 <= k < prefix.len() implies #[trigger] prefix[k].name@ != name by {
                assert(prefix[k] == samples[k]);
            }
            lemma_position(r, name);
        }
        assert forall|k: int| 0 <= k < samples.len() implies {
            &&& position(r2, (#[trigger] samples[k]).name@) >= 0
            &&& r2[position(r2, samples[k].name@)] == recorded(
                entry_or_fresh(entries, samples[k].name@),
                samples[k],
                t,
            )
        } by {
            if k < prefix.len() {
                assert(prefix[k] == samples[k]);
                let n = samples[k].name@;
                assert(n != s.name@);
                lemma_position(r, n);
            } else {
                lemma_position(entries, s.name@);
            }
        }
    }
}

/// The dashboard after one tick with `samples`: unchanged while paused, else each
/// sample recorded at the current second and the time axis advanced by one.
pub open spec fn ticked(v: AppView, samples: Seq<InterfaceSample>) -> AppView {
    if v.is_paused {
        v
    } else {
        AppView {
            interfaces: record_all(v.interfaces, samples, v.second as u64),
            second: v.second + 1,
            ..v
        }
    }
}

/// The dashboard after one tick per batch of `batches`, in order.
pub open spec fn ticked_all(v: AppView, batches: Seq<Seq<InterfaceSample>>) -> AppView
    decreases batches.len(),
{
    if batches.len() == 0 {
        v
    } else {
        ticked(ticked_all(v, batches.drop_last()), batches.last())
    }
}

/// However many ticks come while the dashboard is paused, whatever they sample,
/// every series, every aggregate, the set of interfaces and the time axis stay
/// exactly as they were.
pub proof fn lemma_paused_ticks_freeze(v: AppView, batches: Seq<Seq<InterfaceSample>>)
    requires
        v.is_paused,
    ensures
        ticked_all(v, batches) == v,
    decreases batches.len(),
{
    if batches.len() > 0 {
        lemma_paused_ticks_freeze(v, batches.drop_last());
    }
}

/// Interval between two ticks of the sampler, in milliseconds.
pub const TICK_RATE_MS: u64 = 1000;

/// How long the control loop waits for a key, `elapsed_ms` after the last tick:
/// what is left of the tick interval, and nothing once it has passed.
pub fn poll_timeout_ms(elapsed_ms: u64) -> (r: u64)
    ensures
        r == if elapsed_ms >= TICK_RATE_MS {
            0
        } else {
            (TICK_RATE_MS - elapsed_ms) as u64
        },
{
    if elapsed_ms >= TICK_RATE_MS {
        0
    } else {
        TICK_RATE_MS - elapsed_ms
    }
}

/// Whether a tick is due, `elapsed_ms` after the last one, once the events of
/// this round of the control loop are handled.
pub fn tick_due(elapsed_ms: u64) -> (r: bool)
    ensures
        r == (elapsed_ms >= TICK_RATE_MS),
{
    elapsed_ms >= TICK_RATE_MS
}

/// A key event, as far as the dashboard reacts to it.
#[derive(Clone, Copy, Debug, PartialEq, Eq, Structural)]
pub enum Key {
    Quit,
    Pause,
    Left,
    Right,
    Other,
}

pub struct AppView {
    pub interfaces: Seq<InterfaceView>,
    pub index: nat,
    pub second: nat,
    pub is_paused: bool,
    pub should_exit: bool,
}

/// The dashboard's state: the series of every interface seen so far, in the order
/// they were first seen, the selected interface, the shared time axis and the flags.
pub struct App {
    entries: Vec<InterfaceHistory>,
    index: usize,
    second: u64,
    is_paused: bool,
    should_exit: bool,
}

impl View for App {
    type V = AppView;

    closed spec fn view(&self) -> AppView {
        AppView {
            interfaces: Seq::new(self.entries@.len(), |i: int| self.entries@[i]@),
            index: self.index as nat,
            second: self.second as nat,
            is_paused: self.is_paused,
            should_exit: self.should_exit,
        }
    }
}

proof fn lemma_position(entries: Seq<InterfaceView>, name: Seq<char>)
    ensures
        -1 <= position(entries, name) < entries.len(),
        position(entries, name) >= 0 ==> entries[position(entries, name)].name == name,
        position(entries, name) == -1 ==> forall|i: int|
            0 <= i < entries.len() ==> #[trigger] entries[i].name != name,
    decreases entries.len(),
{
    if entries.len() > 0 {
        lemma_position(entries.drop_last(), name);
        if entries.last().name != name {
            assert forall|i: int| 0 <= i < entries.len() - 1 implies #[trigger] entries[i].name
                == entries.drop_last()[i].name by {}
        }
    }
}

proof fn lemma_position_at(entries: Seq<InterfaceView>, name: Seq<char>, p: int)
    requires
        0 <= p < entries.len(),
        entries[p].name == name,
        forall|i: int| p < i < entries.len() ==> #[trigger] entries[i].name != name,
    ensures
        position(entries, name) == p,
    decreases entries.len(),
{
    if entries.len() - 1 != p {
        let d = entries.drop_last();
        assert forall|i: int| p < i < d.len() implies #[trigger] d[i].name != name by {
            assert(d[i] == entries[i]);
        }
        lemma_position_at(d, name, p);
    }
}

impl InterfaceHistory {
    fn feed(&mut self, s: &InterfaceSample, t: u64)
        requires
            old(self).wf(),
            old(self).count() < u64::MAX,
        ensures
            final(self).wf(),
            final(self)@ == recorded(old(self)@, *s, t),
    {
        self.rx_traffic.add_point((t, s.rx_bytes));
        self.tx_traffic.add_point((t, s.tx_bytes));
        self.rx_packets.add_bar(s.rx_packets);
        self.tx_packets.add_bar(s.tx_packets);
    }
}

impl App {
    /// Every interface's series are well formed and fed at most once per tick so
    /// far, and no two interfaces share a name.
    pub closed spec fn wf(&self) -> bool {
        &&& forall|i: int| 0 <= i < self.entries@.len() ==> #[trigger] self.entries@[i].wf()
        &&& forall|i: int|
            0 <= i < self.entries@.len() ==> #[trigger] self.entries@[i].count() <= self.second
        &&& forall|a: int, b: int|
            0 <= a < b < self.entries@.len() ==> #[trigger] self.entries@[a].name@
                != #[trigger] self.entries@[b].name@
    }

    pub fn init() -> (r: App)
        ensures
            r.wf(),
            r@.interfaces == Seq::<InterfaceView>::empty(),
            r@.index == 0,
            r@.second == 0,
            !r@.is_paused,
            !r@.should_exit,
    {
        let r = App { entries: Vec::new(), index: 0, second: 0, is_paused: false, should_exit: false };
        assert(r@.interfaces =~= Seq::<InterfaceView>::empty());
        r
    }

    /// Selects the previous interface; nothing changes on the first one.
    pub fn previous(&mut self)
        ensures
            final(self)@.index == if old(self)@.index > 0 {
                (old(self)@.index - 1) as nat
            } else {
                0
            },
            final(self)@.interfaces == old(self)@.interfaces,
            final(self)@.second == old(self)@.second,
            final(self)@.is_paused == old(self)@.is_paused,
            final(self)@.should_exit == old(self)@.should_exit,
            old(self).wf() ==> final(self).wf(),
    {
        if self.index > 0 {
            self.index = self.index - 1;
        }
    }

    /// Selects the next of `interface_count` interfaces; nothing changes on the last one.
    pub fn next(&mut self, interface_count: usize)
        ensures
            final(self)@.index == if old(self)@.index + 1 < interface_count {
                old(self)@.index + 1
            } else {
                old(self)@.index
            },
            final(self)@.interfaces == old(self)@.interfaces,
            final(self)@.second == old(self)@.second,
            final(self)@.is_paused == old(self)@.is_paused,
            final(self)@.should_exit == old(self)@.should_exit,
            old(self).wf() ==> final(self).wf(),
    {
        if interface_count > 0 && self.index < interface_count - 1 {
            self.index = self.index + 1;
        }
    }

    /// Reacts to a key: quit, toggle the pause, or move the selection among
    /// `interface_count` interfaces without wrapping around.
    pub fn handle_key(&mut self, key: Key, interface_count: usize)
        ensures
            final(self)@.interfaces == old(self)@.interfaces,
            final(self)@.second == old(self)@.second,
            final(self)@.should_exit == (old(self)@.should_exit || key == Key::Quit),
            final(self)@.is_paused == if key == Key::Pause {
                !old(self)@.is_paused
            } else {
                old(self)@.is_paused
            },
            final(self)@.index == match key {
                Key::Left => if old(self)@.index > 0 {
                    (old(self)@.index - 1) as nat
                } else {
                    0
                },
                Key::Right => if old(self)@.index + 1 < interface_count {
                    old(self)@.index + 1
                } else {
                    old(self)@.index
                },
                _ => old(self)@.index,
            },
            old(self).wf() ==> final(self).wf(),
    {
        match key {
            Key::Quit => {
                self.should_exit = true;
            },
            Key::Pause => {
                self.is_paused = !self.is_paused;
            },
            Key::Left => self.previous(),
            Key::Right => self.next(interface_count),
            Key::Other => {},
        }
    }

    pub fn index(&self) -> (r: usize)
        ensures
            r == self@.index,
    {
        self.index
    }

    pub fn second(&self) -> (r: u64)
        ensures
            r == self@.second,
    {
        self.second
    }

    pub fn is_paused(&self) -> (r: bool)
        ensures
            r == self@.is_paused,
    {
        self.is_paused
    }

    /// Whether the control loop ends before its next paint.
    pub fn should_exit(&self) -> (r: bool)
        ensures
            r == self@.should_exit,
    {
        self.should_exit
    }
}

impl App {
    spec fn entries_ok(entries: Seq<InterfaceHistory>) -> bool {
        &&& forall|i: int| 0 <= i < entries.len() ==> #[trigger] entries[i].wf()
        &&& forall|a: int, b: int|
            0 <= a < b < entries.len() ==> #[trigger] entries[a].name@ != #[trigger] entries[b].name@
    }

    fn find(&self, name: &String) -> (r: Option<usize>)
        ensures
            match r {
                Some(i) => position(self@.interfaces, name@) == i && i < self.entries@.len(),
                None => position(self@.interfaces, name@) == -1,
            },
    {
        let ghost es = self@.interfaces;
        proof {
            lemma_position(es, name@);
        }
        let mut i: usize = self.entries.len();
        while i > 0
            invariant
                i <= self.entries@.len(),
                es == self@.interfaces,
                forall|k: int| i <= k < es.len() ==> #[trigger] es[k].name != name@,
                -1 <= position(es, name@) < es.len(),
                position(es, name@) >= 0 ==> es[position(es, name@)].name == name@,
                position(es, name@) == -1 ==> forall|k: int|
                    0 <= k < es.len() ==> #[trigger] es[k].name != name@,
            decreases i,
        {
            if self.entries[i - 1].name == *name {
                proof {
                    assert(es[i - 1].name == name@);
                    lemma_position_at(es, name@, i - 1);
                }
                return Some(i - 1);
            }
            assert(es[i - 1].name != name@);
            i = i - 1;
        }
        proof {
            if position(es, name@) >= 0 {
                assert(es[position(es, name@)].name == name@);
            }
        }
        None
    }

    /// The series of the interface called `name`, or `None` where it was never seen.
    pub fn interface(&self, name: &String) -> (r: Option<&InterfaceHistory>)
        ensures
            position(self@.interfaces, name@) == -1 ==> r is None,
            position(self@.interfaces, name@) >= 0 ==> r is Some && r->0@ == self@.interfaces[position(
                self@.interfaces,
                name@,
            )],
            r is Some ==> (self.wf() ==> r->0.wf()),
    {
        match self.find(name) {
            Some(i) => Some(&self.entries[i]),
            None => None,
        }
    }

    /// Feeds one sample into the entry of its interface, making it first where the
    /// interface is new.
    fn record_sample(&mut self, s: &InterfaceSample)
        requires
            Self::entries_ok(old(self).entries@),
            position(old(self)@.interfaces, s.name@) >= 0 ==> old(self)@.interfaces[position(
                old(self)@.interfaces,
                s.name@,
            )].rx_traffic.points.len() < u64::MAX,
        ensures
            Self::entries_ok(final(self).entries@),
            final(self)@.interfaces == record(old(self)@.interfaces, *s, old(self).second),
            final(self).second == old(self).second,
            final(self).index == old(self).index,
            final(self).is_paused == old(self).is_paused,
            final(self).should_exit == old(self).should_exit,
    {
        let ghost es = self@.interfaces;
        let t = self.second;
        proof {
            lemma_position(es, s.name@);
        }
        match self.find(&s.name) {
            Some(i) => {
                let mut e = self.entries.remove(i);
                proof {
                    assert(self.entries@ =~= old(self).entries@.remove(i as int));
                    assert(e == old(self).entries@[i as int]);
                }
                e.feed(s, t);
                self.entries.insert(i, e);
                proof {
                    assert(self.entries@ =~= old(self).entries@.update(i as int, e));
                    assert(self@.interfaces =~= record(es, *s, t));
                }
            },
            None => {
                let mut e = InterfaceHistory {
                    name: s.name.clone(),
                    rx_traffic: TrafficHistory::download(),
                    tx_traffic: TrafficHistory::upload(),
                    rx_packets: PacketHistory::download(),
                    tx_packets: PacketHistory::upload(),
                };
                assert(e@ == fresh(s.name@));
                e.feed(s, t);
                self.entries.push(e);
                proof {
                    assert(self@.interfaces =~= record(es, *s, t));
                    assert forall|a: int, b: int|
                        0 <= a < b < self.entries@.len() implies #[trigger] self.entries@[a].name@
                        != #[trigger] self.entries@[b].name@ by {
                        if b == self.entries@.len() - 1 {
                            assert(es[a].name == self.entries@[a].name@);
                        }
                    }
                }
            },
        }
    }

    /// One tick of the sampler: unless paused, feeds each sample into its
    /// interface's series at the current second, then advances the shared time
    /// axis by one. While paused nothing changes at all.
    pub fn tick(&mut self, samples: &Vec<InterfaceSample>)
        requires
            old(self).wf(),
            old(self)@.second < u64::MAX,
            distinct_names(samples@),
        ensures
            final(self).wf(),
            final(self)@ == ticked(old(self)@, samples@),
            old(self)@.is_paused ==> final(self)@ == old(self)@,
            !old(self)@.is_paused ==> final(self)@ == (AppView {
                interfaces: record_all(old(self)@.interfaces, samples@, old(self)@.second as u64),
                second: old(self)@.second + 1,
                ..old(self)@
            }),
    {
        if self.is_paused {
            return;
        }
        let t = self.second;
        let mut j: usize = 0;
        proof {
            assert(samples@.subrange(0, 0) =~= Seq::<InterfaceSample>::empty());
            assert forall|i: int| 0 <= i < self@.interfaces.len() implies (
            #[trigger] self@.interfaces[i]).rx_traffic.points.len() <= t by {
                assert(self.entries@[i].count() <= t);
            }
        }
        while j < samples.len()
            invariant
                Self::entries_ok(self.entries@),
                self.second == t,
                t < u64::MAX,
                self.index == old(self).index,
                self.is_paused == old(self).is_paused,
                self.should_exit == old(self).should_exit,
                distinct_names(samples@),
                j <= samples@.len(),
                self@.interfaces == record_all(old(self)@.interfaces, samples@.subrange(0, j as int), t),
                forall|i: int|
                    0 <= i < self@.interfaces.len() ==> (#[trigger] self@.interfaces[i]).rx_traffic.points.len()
                        <= t + 1,
                forall|i: int|
                    0 <= i < self@.interfaces.len() && (#[trigger] self@.interfaces[i]).rx_traffic.points.len()
                        == t + 1 ==> exists|k: int|
                        0 <= k < j && (#[trigger] samples@[k]).name@ == self@.interfaces[i].name,
            decreases samples@.len() - j,
        {
            let ghost before = self@.interfaces;
            let s = &samples[j];
            proof {
                lemma_position(before, s.name@);
                let p = position(before, s.name@);
                if p >= 0 && before[p].rx_traffic.points.len() == t + 1 {
                    let k = choose|k: int| 0 <= k < j && (#[trigger] samples@[k]).name@ == before[p].name;
                    assert(samples@[k].name@ != samples@[j as int].name@);
                }
            }
            self.record_sample(s);
            proof {
                let sub = samples@.subrange(0, j + 1);
                assert(sub.drop_last() =~= samples@.subrange(0, j as int));
                assert(sub.last() == samples@[j as int]);
                let after = self@.interfaces;
                let p = position(before, s.name@);
                assert forall|i: int|
                    0 <= i < after.len() && (#[trigger] after[i]).rx_traffic.points.len() == t + 1
                    implies exists|k: int| 0 <= k < j + 1 && (#[trigger] samples@[k]).name@ == after[i].name by {
                    if i == p || i == before.len() {
                        assert(samples@[j as int].name@ == after[i].name);
                    } else {
                        assert(after[i] == before[i]);
                        let k = choose|k: int| 0 <= k < j && (#[trigger] samples@[k]).name@ == before[i].name;
                        assert(samples@[k].name@ == after[i].name);
                    }
                }
            }
            j = j + 1;
        }
        self.second = t + 1;
        proof {
            assert(samples@.subrange(0, samples@.len() as int) =~= samples@);
            assert forall|i: int| 0 <= i < self.entries@.len() implies #[trigger] self.entries@[i].count()
                <= self.second by {
                assert(self@.interfaces[i] == self.entries@[i]@);
            }
        }
    }
}

} // verus!
