//! Relay of temperature and humidity telemetry from attached sensors,
//! through a polling agent, to a central collector.
//!
//! The pieces that decide correctness live here, verified: how slot
//! outcomes are framed on the wire (`frame`), how a received line is
//! parsed under either framing grammar (`parse`), how both hops retry
//! under bounded budgets (`retry`), how parsed slots are aligned with
//! sensor bindings and stamped for delivery (`relay`), and how the
//! collector validates and persists each record (`collector`). Transports,
//! process bootstrap and the durable store are external collaborators and
//! stay outside.

pub mod collector;
pub mod frame;
pub mod parse;
pub mod relay;
pub mod retry;
mod clock;
