//! The live-reconfiguration protocol: the one-shot commands the control
//! channel carries, and the acks the core answers them with.
use vstd::prelude::*;
use crate::front::{HttpFront, TlsFront};

verus! {

/// A backend instance as a command names it: an application, an IP address
/// in text, and a port. It is canonicalized to a socket address when the
/// command is applied.
pub struct Instance {
    pub app_id: String,
    pub ip_address: String,
    pub port: u16,
}

/// A reconfiguration command. The channel is shared with the plaintext
/// proxy, whose front commands this core ignores.
pub enum Command {
    AddTlsFront(TlsFront),
    RemoveTlsFront(TlsFront),
    AddInstance(Instance),
    RemoveInstance(Instance),
    AddHttpFront(HttpFront),
    RemoveHttpFront(HttpFront),
}

/// What the event loop hands the core: a command, or the order to stop.
pub enum ProxyOrder {
    Command(Command),
    Stop,
}

/// The acks the core emits on the status channel.
#[derive(Clone, Copy, Debug, PartialEq, Eq, Structural)]
pub enum ServerMessage {
    AddedFront,
    RemovedFront,
    AddedInstance,
    RemovedInstance,
    Stopped,
}

/// What applying one order decides: the ack to send, if any (a command
/// whose input could not be used is ignored without one), and whether the
/// event loop should shut down.
pub struct NotifyOutcome {
    pub ack: Option<ServerMessage>,
    pub stop: bool,
}

} // verus!
