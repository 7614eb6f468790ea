//! Host-resident network traffic observability and admission control.
//!
//! The library models the tables that the in-kernel probes maintain
//! (bounded maps from address or port to a running aggregate), the probe
//! logic itself (blacklist enforcement and per-packet counting), the
//! correlation of socket-lifecycle probes, and the user-space drain and
//! blacklist-sync cycles that consume those tables.  Everything here is
//! pure logic over plain values; attaching probes, fetching the blacklist
//! and shipping telemetry are left to the surrounding binary.

pub mod aggregate;
pub mod aggs;
pub mod control;
pub mod correlate;
pub mod drain;
pub mod extract;
pub mod filter;
pub mod network_utils;
pub mod sync;
pub mod table;
