//! A verified codec and dispatcher for a JSON-RPC-shaped protocol spoken
//! over a persistent socket connection to a database engine.
//!
//! The crate models the wire values, parses and serializes the envelope
//! format, extracts the envelope fields (`id`, `method`, `params`), routes
//! requests through a method table, and decides, frame by frame, what a
//! connection replies and when it closes. The surrounding transport (the
//! websocket upgrade, the engine handle, the async task per connection) is
//! deliberately outside: this library is the part worth proving.

use vstd::prelude::*;

pub mod decode;
pub mod encode;
pub mod conn;
pub mod roundtrip;
pub mod rpc;
pub mod value;

verus! {

/// Sum of two unsigned sizes.
pub fn add(left: usize, right: usize) -> (r: usize)
    requires
        left + right <= usize::MAX,
    ensures
        r == left + right,
{
    left + right
}

} // verus!
