//! Decision and audit core of a local filtering forward proxy.
//!
//! The library holds the policy store (a domain blocklist and a counter of
//! blocked requests), the per-request decision engine, and a bounded, lossy
//! publish-subscribe hub that fans audit records out to live viewers.
//! Everything here is sequential and verified; the surrounding process wires
//! it to the network, to TLS interception and to concurrent tasks.

pub mod policy;
pub mod engine;
pub mod fanout;


