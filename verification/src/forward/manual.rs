//! Forwarding by relaying TCP connections in this process: a listener on the
//! public address per exposed service.
use vstd::prelude::*;
use crate::config::ExposedService;
use crate::net::{IpAddress, Ipv4Address, SocketAddress};

verus! {

/// What happened to the listener of a service.
#[derive(Clone, Copy, Debug, PartialEq, Eq)]
pub enum ListenerEvent {
    /// The public address could not be bound.
    BindFailed,
    /// A client connected.
    Accepted,
    /// Accepting a connection failed.
    AcceptFailed,
    /// The service is no longer exposed.
    Shutdown,
}

/// What the listener does next.
#[derive(Clone, Copy, Debug, PartialEq, Eq)]
pub enum ListenerAction {
    /// Relay the accepted connection and keep accepting.
    RelayConnection,
    /// Keep accepting.
    KeepListening,
    /// End the service's forwarding.
    Stop,
}

/// The listener's decision: a connection is relayed, a failed accept is
/// passed over, and a failed bind or a shutdown ends the forwarding.
pub fn listener_step(event: ListenerEvent) -> (action: ListenerAction)
    ensures
        action == match event {
            ListenerEvent::Accepted => ListenerAction::RelayConnection,
            ListenerEvent::AcceptFailed => ListenerAction::KeepListening,
            ListenerEvent::BindFailed => ListenerAction::Stop,
            ListenerEvent::Shutdown => ListenerAction::Stop,
        },
{
    match event {
        ListenerEvent::Accepted => ListenerAction::RelayConnection,
        ListenerEvent::AcceptFailed => ListenerAction::KeepListening,
        ListenerEvent::BindFailed => ListenerAction::Stop,
        ListenerEvent::Shutdown => ListenerAction::Stop,
    }
}

/// Forwarding of services by accepting connections on the public address and
/// relaying each to the service's target.
#[derive(Clone, Copy, Debug)]
pub struct ManualForwarding {
    public_ip: Ipv4Address,
}

impl ManualForwarding {
    /// The public IPv4 address services are exposed on.
    pub closed spec fn public_ip(&self) -> Ipv4Address {
        self.public_ip
    }

    pub fn new(public_ip: Ipv4Address) -> (f: ManualForwarding)
        ensures
            f.public_ip() == public_ip,
    {
        ManualForwarding { public_ip }
    }

    /// Where to listen for connections to `service`: its public port on the
    /// public address.
    pub fn listen_address(&self, service: &ExposedService) -> (addr: SocketAddress)
        ensures
            addr.ip == IpAddress::V4(self.public_ip()),
            addr.port == service.public_port,
    {
        SocketAddress { ip: IpAddress::V4(self.public_ip), port: service.public_port }
    }
}

} // verus!
