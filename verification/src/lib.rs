//! An endpoint monitoring agent core: a signed-policy gate that must
//! pass before anything runs, telemetry records with their canonical
//! JSON wire encoding, a deliver-or-buffer relay over a durable FIFO
//! queue, explicit per-collector timers, and the parsers the collectors
//! need. Platform enumeration, the network and the filesystem stay with
//! the calling program.

pub mod clock;
pub mod filescan;
pub mod hexcode;
pub mod json;
pub mod keys;
pub mod netscan;
pub mod policy;
pub mod relay;
pub mod schedule;
pub mod telemetry;
