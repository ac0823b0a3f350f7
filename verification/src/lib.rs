//! Exposes services registered in a Consul catalog on a public address, either by
//! relaying TCP connections itself or by installing static NAT64 bindings with jool.
//! This crate holds the decisions; the program around it performs the I/O.
use vstd::prelude::*;

pub mod config;
pub mod forward;
pub mod handlers;
pub mod net;
pub mod text;

verus! {
} // verus!
