//! Telemetry capture-and-dispatch pipeline for an HTTP filter.
//!
//! For every intercepted HTTP exchange the library extracts connection
//! addresses and workload identity from untrusted host-supplied strings,
//! assembles a telemetry record across the exchange's lifecycle phases,
//! and prepares exactly one outbound dispatch per completed exchange.
//! The host-facing plumbing (reading proxy properties, issuing the
//! outbound call) lives outside the library and hands in plain values.

pub mod address;
pub mod codec;
pub mod config;
pub mod dispatch;
pub mod exchange;
pub mod identity;
pub mod json;
pub mod telemetry;
pub mod text;
