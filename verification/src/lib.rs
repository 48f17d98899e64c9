//! A node program for a simulated distributed cluster: it dispatches
//! newline-framed protocol messages to handlers for echo, unique-ID
//! generation, broadcast gossip and a per-key append-only log, and builds
//! the replies those handlers owe.
//!
//! The verified library holds the whole protocol logic: the event taxonomy,
//! the dispatcher, the broadcast store with dedup and retry bookkeeping, the
//! log with monotonic offsets, and the ID generator. Line I/O, JSON framing
//! and the task runtime live in the unverified shell around it.

pub mod broadcast;
pub mod db;
pub mod decimal;
pub mod events;
pub mod klog;
pub mod node;
pub mod transport;
pub mod uid;
pub mod value;
