//! Health-check-driven route-control supervisor library.
//!
//! External probe commands stand in for service health; each service's
//! results are aggregated through a fall/rise hysteresis state machine.
//! When a service's reported health flips, a configuration file for the
//! routing daemon is regenerated and a reload is triggered, exactly once
//! per flip.  A snapshot of the whole state can be encoded for remote
//! observers over a length-delimited framed transport.

pub mod aggregator;
pub mod client;
pub mod codec;
pub mod codec_text;
pub mod config;
pub mod digits;
pub mod duration_text;
pub mod emitter;
pub mod frame;
pub mod hysteresis;
pub mod loader;
pub mod outcomes;
pub mod raw;
pub mod rpc;
pub mod service;
pub mod tui;
