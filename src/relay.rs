//! The decisions of the relay loop and of the per-connection readers.
//!
//! Sockets, threads, the shared queue and the poll interval stay with the
//! caller: it hands each outcome in and carries out what comes back.

use std::sync::Arc;
use vstd::prelude::*;
use vstd::utf8::*;
use crate::frame::{decode, frame_of, payload};
use crate::message::{Message, PeerAddr};
use crate::registry::{
    attempted_each, is_recipient_list, with_client, without_addr, ConnectedClient, Delivery,
    Registry,
};

verus! {

/// What a non-blocking read of one full frame gave.
pub enum ReadOutcome {
    /// A whole frame arrived.
    Frame(Vec<u8>),
    /// Nothing to read yet; try again after the poll interval.
    WouldBlock,
    /// The connection is closed or broken.
    Failed,
}

/// What to do after a read.
pub enum ReadAction {
    /// Hand this text on.
    Text(String),
    /// Nothing to hand on; read again after the poll interval.
    Skip,
    /// Stop servicing the connection.
    Stop,
}

/// What reaches the relay loop: a new connection, the end of one, or a
/// message to forward.
pub enum RelayEvent<H> {
    Accepted { addr: PeerAddr, handle: H },
    ReaderClosed { addr: PeerAddr },
    Inbound { msg: Message },
}

/// The text a read yields, if any; `None` as well when the read gave none.
pub open spec fn read_text(outcome: ReadOutcome) -> Option<Seq<char>> {
    match outcome {
        ReadOutcome::Frame(f) => if valid_utf8(payload(f@)) {
            Some(decode_utf8(payload(f@)))
        } else {
            None
        },
        _ => None,
    }
}

/// Decides on one read: a frame is decoded (a frame that is not valid UTF-8
/// is dropped), "would block" waits, any other failure ends the connection.
pub fn on_read(outcome: ReadOutcome) -> (r: ReadAction)
    ensures
        outcome is Failed <==> r is Stop,
        read_text(outcome) matches Some(t) ==> (r matches ReadAction::Text(s) && s@ == t),
        read_text(outcome) is None && !(outcome is Failed) ==> r is Skip,
{
    match outcome {
        ReadOutcome::Frame(f) => match decode(f.as_slice()) {
            Some(s) => ReadAction::Text(s),
            None => ReadAction::Skip,
        },
        ReadOutcome::WouldBlock => ReadAction::Skip,
        ReadOutcome::Failed => ReadAction::Stop,
    }
}

/// One turn of the reader that serves the connection from `addr`: the event
/// it puts on the relay's queue, if any, and whether it keeps reading. When
/// the connection fails the reader reports it, so that the relay can drop
/// the peer.
pub fn reader_step<H>(addr: PeerAddr, frame_size: usize, outcome: ReadOutcome) -> (r: (
    Option<RelayEvent<H>>,
    bool,
))
    ensures
        r.1 == !(outcome is Failed),
        outcome is Failed ==> (r.0 matches Some(RelayEvent::ReaderClosed { addr: a }) && a
            == addr),
        read_text(outcome) matches Some(t) ==> (r.0 matches Some(RelayEvent::Inbound { msg })
            && msg.text_view() == t && msg.sender() == addr && msg.frame_size() == frame_size),
        read_text(outcome) is None && !(outcome is Failed) ==> r.0 is None,
{
    match on_read(outcome) {
        ReadAction::Text(s) => (
            Some(RelayEvent::Inbound { msg: Message::new(frame_size, Arc::new(s), addr) }),
            true,
        ),
        ReadAction::Skip => (None, true),
        ReadAction::Stop => (Some(RelayEvent::ReaderClosed { addr }), false),
    }
}

/// One turn of the relay loop on an event: an accepted peer is registered, a
/// closed one is removed, and a message is broadcast to everyone but its
/// sender through `send`.
pub fn relay_step<H, F>(registry: &mut Registry<H>, event: RelayEvent<H>, send: F) -> (r: Option<
    Delivery,
>) where F: Fn(&H, &Vec<u8>) -> bool
    requires
        old(registry).wf(),
        forall|h: &H, frame: &Vec<u8>| send.requires((h, frame)),
    ensures
        final(registry).wf(),
        match event {
            RelayEvent::Accepted { addr, handle } => {
                &&& final(registry).entries() == with_client(
                    old(registry).entries(),
                    (ConnectedClient { addr: addr, handle: handle }),
                )
                &&& r is None
            },
            RelayEvent::ReaderClosed { addr } => {
                &&& final(registry).entries() == without_addr(old(registry).entries(), addr)
                &&& r is None
            },
            RelayEvent::Inbound { msg } => {
                &&& final(registry).entries() == old(registry).entries()
                &&& r matches Some(d)
                &&& d.frame@ == frame_of(msg.text_view(), msg.frame_size())
                &&& is_recipient_list(old(registry).entries(), msg.sender(), d.targets@)
                &&& attempted_each(old(registry).entries(), send, d)
            },
        },
{
    match event {
        RelayEvent::Accepted { addr, handle } => {
            registry.add(addr, handle);
            None
        },
        RelayEvent::ReaderClosed { addr } => {
            registry.remove_by_address(addr);
            None
        },
        RelayEvent::Inbound { msg } => Some(registry.broadcast_except(&msg, send)),
    }
}

} // verus!
