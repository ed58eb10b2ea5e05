//! Routing envelope and wire codec for a multi-hop message fabric.
//!
//! A message travels as a versioned binary envelope: a version byte, an
//! onward route (the hops still to traverse), a return route (the hops
//! already traversed), an opaque payload, and an optional tracing token.
//! Every router along the path decodes the envelope, pops its own address
//! off the onward route, pushes its own address onto the return route,
//! re-encodes, and forwards the bytes to the next hop.
//!
//! The binary layer is a BARE-style encoding: variable-length unsigned
//! integers with a continuation bit, and length-prefixed byte strings.

pub mod bare;
pub mod policies;
pub mod route;
pub mod transport_message;
pub mod trust;
pub mod tui;
