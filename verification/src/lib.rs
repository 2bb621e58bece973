//! Keyboard activity statistics: the counting, aggregation, parsing and
//! dashboard-state logic of a private key-press counter, with contracts.

pub mod app;
pub mod calendar;
pub mod capture;
pub mod cli;
pub mod recorder;
pub mod stats;
pub mod store;
pub mod text;
pub mod ui;
