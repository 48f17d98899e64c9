//! The wire framing layer.
//!
//! One JSON object per `\n`-terminated line, read and written by the I/O
//! shell around the library: parsing a line into a `Message` and printing a
//! `Message` are serialization and I/O, and live there. The policy for a
//! line that fails to decode is the library's:
//! `Node::handle_deserialization_error` builds the `error` reply, and the
//! loop goes on with the next line. A reply that fails to encode is logged
//! with `Node::handle_serialization_error` and dropped; no single bad line
//! ever aborts the loop.

use vstd::prelude::*;

verus! {

/// Marker for the framing layer the shell implements.
pub struct Transport;

} // verus!
