//! Verified core of LogCrab, a log anomaly explorer: the rules that decide
//! which file type and line format a log belongs to, the line parsers,
//! protocol decoders for Bluetooth and network captures, the time order of
//! the store, search and request scheduling, and the decisions behind the
//! anomaly scores.

pub mod anomaly;
pub mod bookmarks;
pub mod btsnoop;
pub mod bugreport;
pub mod calibration;
pub mod capture;
pub mod chars;
pub mod config;
pub mod detect;
pub mod dlt;
pub mod dmesg;
pub mod export;
pub mod file_state;
pub mod filter;
pub mod filter_run;
pub mod formats;
pub mod filter_worker;
pub mod generic;
pub mod histogram;
pub mod input;
pub mod logcat;
pub mod otel;
pub mod pattern;
pub mod pcap;
pub mod queue_map;
pub mod registry;
pub mod search;
pub mod selection;
pub mod session;
pub mod sidecar;
pub mod store;
pub mod tabs;
pub mod temporal;
pub mod text;
pub mod time_index;
