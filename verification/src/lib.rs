//! Core of an HTTP/2 server runtime: a zero-copy incremental frame codec,
//! the RFC 7540 section 5.1 stream state machine, per-connection read and
//! write machines, and the reactor's slab of per-token machines.
//!
//! All I/O stays outside this crate; the library works on plain bytes and
//! on refcounted slices of a read buffer, and states what every operation
//! does in its contract.

use vstd::prelude::*;

pub mod buf;
pub mod connection;
pub mod encoder;
pub mod frame;
pub mod http;
pub mod parser;
pub mod rt;
pub mod stream;

verus! {

/// An application-level request handler, invoked when a stream reaches a
/// dispatchable state. Implementations run off the reactor thread.
pub trait Handler: Send + Sync + 'static {
    fn handle(&self);
}

} // verus!
