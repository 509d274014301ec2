//! A multi-host TCP/UDP port-scanning library: target and port expansion,
//! probe classification state machines, an adaptive per-network-class
//! controller, service identification, and result aggregation.
//!
//! Network I/O itself (sockets, timers, resolution) lives outside this
//! library; callers observe network events and hand them to the verified
//! classifiers and aggregators here.

pub mod adaptive;
pub mod addr4;
pub mod addr6;
pub mod cli;
pub mod config;
pub mod error;
pub mod net;
pub mod plugins;
pub mod ports;
pub mod probe;
pub mod results;
pub mod scheduler;
pub mod service;
pub mod targets;
pub mod text;

pub use results::PortStatus;
