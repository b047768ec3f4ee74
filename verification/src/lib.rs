//! TLS-terminating front end of a reverse proxy: a routing table from
//! `(hostname, uri)` to backend instances, a per-hostname crypto context
//! store consulted during SNI, per-connection client state, and the live
//! reconfiguration commands that mutate the table while traffic flows.
use vstd::prelude::*;

pub mod addr;
pub mod client;
pub mod commands;
pub mod contexts;
pub mod front;
pub mod outside;
pub mod pem;
pub mod server;
pub mod strutil;

verus! {

} // verus!
