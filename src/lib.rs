//! Rolling per-interface network history: fixed-capacity series with lifetime
//! statistics, their projection into chart bounds, labels and sparkline bars, and
//! the dashboard state that feeds them once per tick.
pub mod dashboard;
pub mod format;
pub mod history;
pub mod packet;
pub mod traffic;
