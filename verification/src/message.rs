//! The protocol messages peers exchange.
//!
//! The set of messages is closed: every datagram on the wire is exactly one
//! encoded `NetworkMessage`. Dispatching on a received message is always an
//! exhaustive match, so a new variant can never be silently ignored.

use vstd::prelude::*;

use crate::addr::Addr;

verus! {

/// A protocol message.
#[derive(Debug, PartialEq, Eq)]
pub enum NetworkMessage {
    /// A liveness ping. Carries nothing: receipt of any datagram already
    /// refreshes the sender's liveness, so the body has no extra effect.
    KeepAlive,
    /// Announces a newly observed peer's address.
    NewNode { addr: Addr },
    /// Asks the receiver for its known-peer set.
    RequestPeerList,
    /// The sender's known peers. The order carries no meaning.
    PeerList { peers: Vec<Addr> },
}

/// The mathematical value of a `NetworkMessage`: the same variants, with the
/// peer list abstracted to a sequence.
pub enum MessageView {
    KeepAlive,
    NewNode { addr: Addr },
    RequestPeerList,
    PeerList { peers: Seq<Addr> },
}

impl View for NetworkMessage {
    type V = MessageView;

    open spec fn view(&self) -> MessageView {
        match self {
            NetworkMessage::KeepAlive => MessageView::KeepAlive,
            NetworkMessage::NewNode { addr } => MessageView::NewNode { addr: *addr },
            NetworkMessage::RequestPeerList => MessageView::RequestPeerList,
            NetworkMessage::PeerList { peers } => MessageView::PeerList { peers: peers@ },
        }
    }
}

} // verus!
