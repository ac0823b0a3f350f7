//! The forwarding backends: relaying connections in this process, or
//! configuring static NAT64 bindings in jool.
use vstd::prelude::*;
use crate::net::Ipv4Address;

pub mod jool;
pub mod manual;
pub mod relay;

pub use jool::JoolForwarding;
pub use manual::ManualForwarding;

verus! {

/// The ways services can be forwarded.
#[derive(Clone, Copy, Debug, PartialEq, Eq)]
pub enum Backend {
    /// Relay connections in this process.
    Manual,
    /// Install static bindings in a jool NAT64 instance.
    Jool,
}

/// The public address a backend is set up with. The manual backend listens on
/// the given address, or on the unspecified address `0.0.0.0` when none is
/// given; the jool backend needs one given, and gets `None` without.
pub fn backend_public_ip(backend: Backend, given: Option<Ipv4Address>) -> (ip: Option<
    Ipv4Address,
>)
    ensures
        match backend {
            Backend::Manual => match given {
                Some(g) => ip == Some(g),
                None => ip is Some && ip->0@ == seq![0u8, 0u8, 0u8, 0u8],
            },
            Backend::Jool => ip == given,
        },
{
    match backend {
        Backend::Manual => match given {
            Some(g) => Some(g),
            None => Some(Ipv4Address::unspecified()),
        },
        Backend::Jool => given,
    }
}

} // verus!
