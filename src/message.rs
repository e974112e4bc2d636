//! The message value that travels through the relay, and the address that
//! identifies the connection it came from.

use std::sync::Arc;
use vstd::prelude::*;
use crate::frame::{encode, frame_of};

verus! {

/// The identity of a connected peer: its socket address.
#[derive(Clone, Copy, Debug, PartialEq, Eq, Hash, Structural)]
pub enum PeerAddr {
    V4 { ip4: u32, port: u16 },
    V6 { ip6: u128, port: u16, flowinfo: u32, scope_id: u32 },
}

/// A text message, the connection it came from, and the frame size that
/// carries it on the wire.
#[derive(Debug)]
pub struct Message {
    text: Arc<String>,
    sender_addr: PeerAddr,
    size: usize,
}

impl Message {
    /// The characters of the message text.
    pub closed spec fn text_view(&self) -> Seq<char> {
        self.text@
    }

    /// The connection the message came from.
    pub closed spec fn sender(&self) -> PeerAddr {
        self.sender_addr
    }

    /// The frame size the message is sent with.
    pub closed spec fn frame_size(&self) -> nat {
        self.size as nat
    }

    pub fn new(size: usize, text: Arc<String>, sender_addr: PeerAddr) -> (m: Message)
        ensures
            m.text_view() == text@,
            m.sender() == sender_addr,
            m.frame_size() == size,
    {
        Message { size: size, text: text, sender_addr: sender_addr }
    }

    pub fn get_text(&self) -> (r: String)
        ensures
            r@ == self.text_view(),
    {
        let s: &String = &*self.text;
        s.clone()
    }

    pub fn get_sender_addr(&self) -> (r: PeerAddr)
        ensures
            r == self.sender(),
    {
        self.sender_addr
    }

    /// The frame that carries this message on the wire.
    pub fn raw(&self) -> (r: Vec<u8>)
        ensures
            r@ == frame_of(self.text_view(), self.frame_size()),
            r@.len() == self.frame_size(),
    {
        let s: &String = &*self.text;
        encode(s.as_str(), self.size)
    }
}

} // verus!
