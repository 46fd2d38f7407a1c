use netmon::dashboard::{poll_timeout_ms, tick_due, App, InterfaceSample, Key, TICK_RATE_MS};
use netmon::format::{format_bytes, format_ratio};
use netmon::history::{Direction, History, DEFAULT_HISTORY_SIZE};
use netmon::packet::PacketHistory;
use netmon::traffic::TrafficHistory;

fn sample(name: &str, rx_bytes: u64, tx_bytes: u64, rx_packets: u64, tx_packets: u64) -> InterfaceSample {
    InterfaceSample { name: name.to_string(), rx_bytes, tx_bytes, rx_packets, tx_packets }
}

#[test]
fn history_keeps_last_values_when_over_capacity() {
    let mut h = History::new(3);
    for v in 1..=5u64 {
        h.add(v);
    }
    let vals: Vec<u64> = h.values().iter().copied().collect();
    assert_eq!(vals, vec![3, 4, 5]);
    assert_eq!(h.values().len(), 3);
    assert_eq!(h.max_size(), 3);
}

#[test]
fn history_below_capacity_keeps_everything() {
    let mut h = History::new(60);
    h.add('a');
    h.add('b');
    let vals: Vec<char> = h.values().iter().copied().collect();
    assert_eq!(vals, vec!['a', 'b']);
}

#[test]
fn history_of_capacity_one() {
    let mut h = History::new(1);
    h.add(7u64);
    h.add(8u64);
    let vals: Vec<u64> = h.values().iter().copied().collect();
    assert_eq!(vals, vec![8]);
}

#[test]
fn traffic_average_of_three_points() {
    let mut t = TrafficHistory::download();
    t.add_point((0, 100));
    t.add_point((1, 200));
    t.add_point((2, 300));
    assert_eq!(t.average_value(), Some(200));
    assert_eq!(t.min_value(), 100);
    assert_eq!(t.max_value(), 300);
    assert_eq!(t.total(), 600);
    assert_eq!(t.samples(), 3);
    assert_eq!(t.direction(), Direction::Download);
}

#[test]
fn traffic_average_without_points_is_none() {
    let t = TrafficHistory::upload();
    assert_eq!(t.average_value(), None);
    assert_eq!(t.samples(), 0);
    assert_eq!(t.total(), 0);
    assert_eq!(t.values().len(), 0);
    assert_eq!(t.direction(), Direction::Upload);
}

#[test]
fn traffic_aggregates_survive_eviction() {
    let mut t = TrafficHistory::download();
    for i in 0..70u64 {
        t.add_point((i, 1000 - i));
    }
    assert_eq!(t.values().len(), DEFAULT_HISTORY_SIZE);
    assert_eq!(t.values()[0], (10, 990));
    assert_eq!(t.min_value(), 931);
    assert_eq!(t.max_value(), 1000);
    let sum: u128 = (0..70u128).map(|i| 1000 - i).sum();
    assert_eq!(t.total(), sum);
    assert_eq!(t.samples(), 70);
    for &(_, y) in t.values().iter() {
        assert!(t.min_value() <= y && y <= t.max_value());
    }
}

#[test]
fn format_bytes_units() {
    assert_eq!(format_bytes(999, false), "999.00 B");
    assert_eq!(format_bytes(1000, false), "1.00 KB");
    assert_eq!(format_bytes(1_500_000, false), "1.50 MB");
    assert_eq!(format_bytes(2_250_000_000, false), "2.25 GB");
    assert_eq!(format_bytes(3_000_000_000_000, false), "3.00 TB");
    assert_eq!(format_bytes(5_000_000_000_000_000, false), "5000.00 TB");
    assert_eq!(format_bytes(0, false), "0.00 B");
}

#[test]
fn format_bytes_rate_suffix() {
    assert_eq!(format_bytes(999, true), "999.00 B/s");
    assert_eq!(format_bytes(1000, true), "1.00 KB/s");
    assert_eq!(format_bytes(1_500_000, true), "1.50 MB/s");
}

#[test]
fn format_bytes_rounds_to_hundredths() {
    assert_eq!(format_bytes(1234, false), "1.23 KB");
    assert_eq!(format_bytes(1236, false), "1.24 KB");
    assert_eq!(format_bytes(999_999, false), "1000.00 KB");
}

#[test]
fn format_ratio_fractions() {
    assert_eq!(format_ratio(3, 2, true), "1.50 B/s");
    assert_eq!(format_ratio(600, 3, false), "200.00 B");
    assert_eq!(format_ratio(1, 3, false), "0.33 B");
    assert_eq!(format_ratio(2000, 2, false), "1.00 KB");
}

#[test]
fn sparkline_doubles_each_sample_newest_first() {
    let mut p = PacketHistory::download();
    p.add_bar(5);
    p.add_bar(3);
    p.add_bar(9);
    assert_eq!(p.bars(120), vec![9, 9, 3, 3, 5, 5]);
}

#[test]
fn sparkline_factor_rounds_up_and_is_at_least_one() {
    let mut p = PacketHistory::upload();
    p.add_bar(1);
    p.add_bar(2);
    assert_eq!(p.bars(0), vec![2, 1]);
    assert_eq!(p.bars(30), vec![2, 1]);
    assert_eq!(p.bars(61), vec![2, 2, 1, 1]);
    assert_eq!(p.bars(130), vec![2, 2, 2, 1, 1, 1]);
    assert_eq!(p.direction(), Direction::Upload);
}

#[test]
fn sparkline_empty_window() {
    let p = PacketHistory::download();
    assert_eq!(p.bars(120), Vec::<u64>::new());
}

#[test]
fn sparkline_full_window_uses_capacity() {
    let mut p = PacketHistory::download();
    for i in 0..65u64 {
        p.add_bar(i);
    }
    let bars = p.bars(120);
    assert_eq!(bars.len(), 120);
    assert_eq!(bars[0], 64);
    assert_eq!(bars[1], 64);
    assert_eq!(bars[119], 5);
    let vals: Vec<u64> = p.values().iter().copied().collect();
    assert_eq!(vals, (5..65u64).collect::<Vec<u64>>());
}

#[test]
fn chart_of_single_point() {
    let mut t = TrafficHistory::download();
    t.add_point((0, 42));
    let c = t.chart();
    assert_eq!(c.x_bounds, (0, 0));
    assert_eq!(c.y_bounds, (0, 42));
    assert_eq!(c.x_labels, ("0s".to_string(), "0.0s".to_string(), "0s".to_string()));
    assert_eq!(
        c.y_labels,
        ("0.00 B/s".to_string(), "21.00 B/s".to_string(), "42.00 B/s".to_string())
    );
    assert_eq!(c.current, "42.00 B/s");
    assert_eq!(c.average, "42.00 B/s");
    assert_eq!(c.min, "42.00 B/s");
    assert_eq!(c.max, "42.00 B/s");
    assert_eq!(c.total, "42.00 B");
}

#[test]
fn chart_bounds_follow_window_and_figures_lifetime() {
    let mut t = TrafficHistory::upload();
    t.add_point((0, 5_000_000));
    for i in 1..=60u64 {
        t.add_point((i, 1000 * i));
    }
    let c = t.chart();
    assert_eq!(c.x_bounds, (1, 60));
    assert_eq!(c.y_bounds, (0, 60_000));
    assert_eq!(c.x_labels.1, "30.5s");
    assert_eq!(c.x_labels.2, "60s");
    assert_eq!(c.y_labels.1, "30.00 KB/s");
    assert_eq!(c.current, "60.00 KB/s");
    assert_eq!(c.min, "1.00 KB/s");
    assert_eq!(c.max, "5.00 MB/s");
    assert_eq!(c.total, "6.83 MB");
    assert_eq!(c.average, "111.97 KB/s");
}

#[test]
fn navigation_is_clamped() {
    let mut app = App::init();
    app.previous();
    assert_eq!(app.index(), 0);
    app.next(3);
    app.next(3);
    assert_eq!(app.index(), 2);
    app.next(3);
    assert_eq!(app.index(), 2);
    app.previous();
    assert_eq!(app.index(), 1);
    app.next(0);
    assert_eq!(app.index(), 1);
}

#[test]
fn keys_drive_the_state() {
    let mut app = App::init();
    app.handle_key(Key::Right, 3);
    assert_eq!(app.index(), 1);
    app.handle_key(Key::Left, 3);
    app.handle_key(Key::Left, 3);
    assert_eq!(app.index(), 0);
    app.handle_key(Key::Pause, 3);
    assert!(app.is_paused());
    app.handle_key(Key::Other, 3);
    assert!(app.is_paused());
    assert!(!app.should_exit());
    app.handle_key(Key::Pause, 3);
    assert!(!app.is_paused());
    app.handle_key(Key::Quit, 3);
    assert!(app.should_exit());
}

#[test]
fn tick_feeds_each_interface_on_a_shared_time_axis() {
    let mut app = App::init();
    app.tick(&vec![sample("eth0", 100, 10, 1, 2), sample("lo", 5, 5, 3, 3)]);
    app.tick(&vec![sample("eth0", 300, 30, 4, 6)]);
    app.tick(&vec![sample("wlan0", 7, 8, 9, 10), sample("eth0", 600, 60, 9, 12)]);
    assert_eq!(app.second(), 3);

    let eth = app.interface(&"eth0".to_string()).unwrap();
    assert_eq!(eth.name, "eth0");
    let rx: Vec<(u64, u64)> = eth.rx_traffic.values().iter().copied().collect();
    assert_eq!(rx, vec![(0, 100), (1, 300), (2, 600)]);
    let tx: Vec<(u64, u64)> = eth.tx_traffic.values().iter().copied().collect();
    assert_eq!(tx, vec![(0, 10), (1, 30), (2, 60)]);
    let rxp: Vec<u64> = eth.rx_packets.values().iter().copied().collect();
    assert_eq!(rxp, vec![1, 4, 9]);
    let txp: Vec<u64> = eth.tx_packets.values().iter().copied().collect();
    assert_eq!(txp, vec![2, 6, 12]);
    assert_eq!(eth.rx_traffic.direction(), Direction::Download);
    assert_eq!(eth.tx_traffic.direction(), Direction::Upload);

    let lo = app.interface(&"lo".to_string()).unwrap();
    assert_eq!(lo.rx_traffic.samples(), 1);

    let wlan = app.interface(&"wlan0".to_string()).unwrap();
    let w: Vec<(u64, u64)> = wlan.rx_traffic.values().iter().copied().collect();
    assert_eq!(w, vec![(2, 7)]);

    assert!(app.interface(&"eth1".to_string()).is_none());
}

#[test]
fn ticks_while_paused_change_nothing() {
    let mut app = App::init();
    app.tick(&vec![sample("eth0", 100, 10, 1, 2)]);
    app.handle_key(Key::Pause, 1);
    for _ in 0..5 {
        app.tick(&vec![sample("eth0", 999, 999, 999, 999), sample("new0", 1, 1, 1, 1)]);
    }
    assert_eq!(app.second(), 1);
    let eth = app.interface(&"eth0".to_string()).unwrap();
    assert_eq!(eth.rx_traffic.samples(), 1);
    assert_eq!(eth.rx_traffic.total(), 100);
    assert_eq!(eth.rx_traffic.max_value(), 100);
    let rxp: Vec<u64> = eth.rx_packets.values().iter().copied().collect();
    assert_eq!(rxp, vec![1]);
    assert!(app.interface(&"new0".to_string()).is_none());

    app.handle_key(Key::Pause, 1);
    app.tick(&vec![sample("eth0", 200, 20, 2, 3)]);
    assert_eq!(app.second(), 2);
    let eth = app.interface(&"eth0".to_string()).unwrap();
    assert_eq!(eth.rx_traffic.samples(), 2);
}

#[test]
fn loop_timing_waits_out_the_tick_interval() {
    assert_eq!(TICK_RATE_MS, 1000);
    assert_eq!(poll_timeout_ms(0), 1000);
    assert_eq!(poll_timeout_ms(250), 750);
    assert_eq!(poll_timeout_ms(999), 1);
    assert_eq!(poll_timeout_ms(1000), 0);
    assert_eq!(poll_timeout_ms(5000), 0);
    assert!(!tick_due(0));
    assert!(!tick_due(999));
    assert!(tick_due(1000));
    assert!(tick_due(u64::MAX));
}
