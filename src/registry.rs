//! The connection registry: the peers currently connected to the relay, at
//! most one entry per address, each with the handle the relay writes to.

use vstd::prelude::*;
use crate::frame::frame_of;
use crate::message::{Message, PeerAddr};

verus! {

/// One connected peer: its address and the handle used to send to it.
pub struct ConnectedClient<H> {
    pub addr: PeerAddr,
    pub handle: H,
}

/// The connected peers, in the order they were added.
pub struct Registry<H> {
    clients: Vec<ConnectedClient<H>>,
}

/// What one broadcast did: the frame it sent, the positions it sent it to,
/// and, for each of them, whether the write succeeded.
pub struct Delivery {
    pub frame: Vec<u8>,
    pub targets: Vec<usize>,
    pub delivered: Vec<bool>,
}

/// No two entries share an address.
pub open spec fn unique_addrs<H>(entries: Seq<ConnectedClient<H>>) -> bool {
    forall|i: int, j: int|
        0 <= i < j < entries.len() ==> entries[i].addr != entries[j].addr
}

/// Whether some entry has address `a`.
pub open spec fn has_addr<H>(entries: Seq<ConnectedClient<H>>, a: PeerAddr) -> bool {
    exists|i: int| 0 <= i < entries.len() && entries[i].addr == a
}

/// The entries without the one whose address is `a`, if there is one.
pub open spec fn without_addr<H>(
    entries: Seq<ConnectedClient<H>>,
    a: PeerAddr,
) -> Seq<ConnectedClient<H>> {
    if has_addr(entries, a) {
        entries.remove(choose|i: int| 0 <= i < entries.len() && entries[i].addr == a)
    } else {
        entries
    }
}

/// The entries after adding a peer: a known address gets the new handle in
/// place, a new one is appended.
pub open spec fn with_client<H>(
    entries: Seq<ConnectedClient<H>>,
    c: ConnectedClient<H>,
) -> Seq<ConnectedClient<H>> {
    if has_addr(entries, c.addr) {
        entries.update(choose|i: int| 0 <= i < entries.len() && entries[i].addr == c.addr, c)
    } else {
        entries.push(c)
    }
}

/// `targets` lists, in increasing order, exactly the positions of the entries
/// whose address is not `sender`.
pub open spec fn is_recipient_list<H>(
    entries: Seq<ConnectedClient<H>>,
    sender: PeerAddr,
    targets: Seq<usize>,
) -> bool {
    &&& forall|k: int| 0 <= k < targets.len() ==> targets[k] < entries.len()
    &&& forall|k: int| 0 <= k < targets.len() ==> entries[targets[k] as int].addr != sender
    &&& forall|k: int, l: int| 0 <= k < l < targets.len() ==> targets[k] < targets[l]
    &&& forall|i: int|
        0 <= i < entries.len() && entries[i].addr != sender ==> exists|k: int|
            0 <= k < targets.len() && targets[k] == i
}

/// Removing an address a second time changes nothing: the first removal
/// already took its only entry.
pub proof fn lemma_remove_idempotent<H>(entries: Seq<ConnectedClient<H>>, a: PeerAddr)
    requires
        unique_addrs(entries),
    ensures
        unique_addrs(without_addr(entries, a)),
        !has_addr(without_addr(entries, a), a),
        without_addr(without_addr(entries, a), a) == without_addr(entries, a),
{
    if has_addr(entries, a) {
        let i = choose|i: int| 0 <= i < entries.len() && entries[i].addr == a;
        let r = entries.remove(i);
        assert forall|k: int| 0 <= k < r.len() implies r[k].addr != a by {
            if k < i {
                assert(r[k] == entries[k]);
            } else {
                assert(r[k] == entries[k + 1]);
            }
        }
        assert forall|k: int, l: int| 0 <= k < l < r.len() implies r[k].addr != r[l].addr by {
            let k0 = if k < i { k } else { k + 1 };
            let l0 = if l < i { l } else { l + 1 };
            assert(r[k] == entries[k0]);
            assert(r[l] == entries[l0]);
        }
    }
}

/// A message from `sender` reaches every other registered peer exactly once,
/// and never its sender.
pub proof fn lemma_broadcast_exclusion<H>(
    entries: Seq<ConnectedClient<H>>,
    sender: PeerAddr,
    targets: Seq<usize>,
)
    requires
        unique_addrs(entries),
        is_recipient_list(entries, sender, targets),
    ensures
        forall|k: int| 0 <= k < targets.len() ==> entries[targets[k] as int].addr != sender,
        forall|a: PeerAddr|
            has_addr(entries, a) && a != sender ==> exists|k: int|
                0 <= k < targets.len() && entries[targets[k] as int].addr == a && forall|l: int|
                    0 <= l < targets.len() && entries[targets[l] as int].addr == a ==> l == k,
{
    assert forall|a: PeerAddr| has_addr(entries, a) && a != sender implies exists|k: int|
        0 <= k < targets.len() && entries[targets[k] as int].addr == a && forall|l: int|
            0 <= l < targets.len() && entries[targets[l] as int].addr == a ==> l == k by {
        let i = choose|i: int| 0 <= i < entries.len() && entries[i].addr == a;
        let k = choose|k: int| 0 <= k < targets.len() && targets[k] == i;
        assert forall|l: int|
            0 <= l < targets.len() && entries[targets[l] as int].addr == a implies l == k by {
            let t = targets[l] as int;
            if t < i {
                assert(entries[t].addr != entries[i].addr);
            } else if i < t {
                assert(entries[i].addr != entries[t].addr);
            }
            if l < k {
                assert(targets[l] < targets[k]);
            } else if k < l {
                assert(targets[k] < targets[l]);
            }
        }
    }
}

/// Each target of `d` was handed the frame through `send`, and `delivered`
/// holds what that write returned.
pub open spec fn attempted_each<H, F: Fn(&H, &Vec<u8>) -> bool>(
    entries: Seq<ConnectedClient<H>>,
    send: F,
    d: Delivery,
) -> bool {
    &&& d.delivered@.len() == d.targets@.len()
    &&& forall|k: int|
        0 <= k < d.targets@.len() ==> send.ensures(
            (&entries[d.targets@[k] as int].handle, &d.frame),
            d.delivered@[k],
        )
}

/// A failed write to one peer keeps no other peer from its message: every
/// registered peer but the sender was handed the frame, once, whatever the
/// writes to the others returned.
pub proof fn lemma_isolation<H, F: Fn(&H, &Vec<u8>) -> bool>(
    entries: Seq<ConnectedClient<H>>,
    sender: PeerAddr,
    send: F,
    d: Delivery,
)
    requires
        unique_addrs(entries),
        is_recipient_list(entries, sender, d.targets@),
        attempted_each(entries, send, d),
    ensures
        forall|a: PeerAddr|
            has_addr(entries, a) && a != sender ==> exists|k: int|
                0 <= k < d.targets@.len() && entries[d.targets@[k] as int].addr == a
                    && send.ensures(
                    (&entries[d.targets@[k] as int].handle, &d.frame),
                    d.delivered@[k],
                ),
{
    lemma_broadcast_exclusion(entries, sender, d.targets@);
    assert forall|a: PeerAddr| has_addr(entries, a) && a != sender implies exists|k: int|
        0 <= k < d.targets@.len() && entries[d.targets@[k] as int].addr == a && send.ensures(
            (&entries[d.targets@[k] as int].handle, &d.frame),
            d.delivered@[k],
        ) by {
        let k = choose|k: int|
            0 <= k < d.targets@.len() && entries[d.targets@[k] as int].addr == a && forall|l: int|
                0 <= l < d.targets@.len() && entries[d.targets@[l] as int].addr == a ==> l == k;
        assert(send.ensures((&entries[d.targets@[k] as int].handle, &d.frame), d.delivered@[k]));
    }
}

impl<H> Registry<H> {
    /// The entries, in order.
    pub closed spec fn entries(&self) -> Seq<ConnectedClient<H>> {
        self.clients@
    }

    pub open spec fn wf(&self) -> bool {
        unique_addrs(self.entries())
    }

    pub fn new() -> (r: Registry<H>)
        ensures
            r.entries() == Seq::<ConnectedClient<H>>::empty(),
            r.wf(),
    {
        Registry { clients: Vec::new() }
    }

    pub fn len(&self) -> (n: usize)
        ensures
            n == self.entries().len(),
    {
        self.clients.len()
    }

    /// Where the entry with address `a` stands, if there is one.
    fn position(&self, a: PeerAddr) -> (r: Option<usize>)
        ensures
            r matches Some(i) ==> i < self.entries().len() && self.entries()[i as int].addr == a,
            r is None ==> !has_addr(self.entries(), a),
    {
        let mut i: usize = 0;
        while i < self.clients.len()
            invariant
                i <= self.clients@.len(),
                forall|j: int| 0 <= j < i ==> self.clients@[j].addr != a,
            decreases self.clients@.len() - i,
        {
            if self.clients[i].addr == a {
                return Some(i);
            }
            i = i + 1;
        }
        None
    }

    pub fn contains(&self, a: PeerAddr) -> (r: bool)
        ensures
            r == has_addr(self.entries(), a),
    {
        self.position(a).is_some()
    }

    /// The entry at position `i`.
    pub fn client(&self, i: usize) -> (c: &ConnectedClient<H>)
        requires
            i < self.entries().len(),
        ensures
            *c == self.entries()[i as int],
    {
        &self.clients[i]
    }

    /// Registers a peer. An address that is already registered keeps its
    /// place and takes the new handle.
    pub fn add(&mut self, addr: PeerAddr, handle: H)
        requires
            old(self).wf(),
        ensures
            final(self).wf(),
            final(self).entries() == with_client(
                old(self).entries(),
                ConnectedClient { addr: addr, handle: handle },
            ),
    {
        let c = ConnectedClient { addr: addr, handle: handle };
        match self.position(addr) {
            Some(i) => {
                let ghost e = self.clients@;
                self.clients.set(i, c);
                proof {
                    let j = choose|j: int| 0 <= j < e.len() && e[j].addr == addr;
                    assert(j == i);
                }
            },
            None => {
                self.clients.push(c);
            },
        }
    }

    /// Removes the peer with address `addr`; returns whether there was one.
    pub fn remove_by_address(&mut self, addr: PeerAddr) -> (removed: bool)
        requires
            old(self).wf(),
        ensures
            final(self).wf(),
            removed == has_addr(old(self).entries(), addr),
            final(self).entries() == without_addr(old(self).entries(), addr),
            !has_addr(final(self).entries(), addr),
    {
        let ghost e = self.clients@;
        match self.position(addr) {
            Some(i) => {
                self.clients.remove(i);
                proof {
                    let j = choose|j: int| 0 <= j < e.len() && e[j].addr == addr;
                    assert(j == i);
                    assert forall|k: int| 0 <= k < self.clients@.len() implies self.clients@[k].addr
                        != addr by {
                        if k < i {
                            assert(self.clients@[k] == e[k]);
                        } else {
                            assert(self.clients@[k] == e[k + 1]);
                        }
                    }
                }
                true
            },
            None => false,
        }
    }

    /// The positions of every peer but `sender`, in order: where a message
    /// from `sender` goes.
    pub fn recipients(&self, sender: PeerAddr) -> (targets: Vec<usize>)
        ensures
            is_recipient_list(self.entries(), sender, targets@),
    {
        let mut targets: Vec<usize> = Vec::new();
        let mut i: usize = 0;
        while i < self.clients.len()
            invariant
                i <= self.clients@.len(),
                forall|k: int| 0 <= k < targets@.len() ==> targets@[k] < i,
                forall|k: int|
                    0 <= k < targets@.len() ==> self.clients@[targets@[k] as int].addr != sender,
                forall|k: int, l: int| 0 <= k < l < targets@.len() ==> targets@[k] < targets@[l],
                forall|j: int|
                    0 <= j < i && self.clients@[j].addr != sender ==> exists|k: int|
                        0 <= k < targets@.len() && targets@[k] == j,
            decreases self.clients@.len() - i,
        {
            let ghost before = targets@;
            if self.clients[i].addr != sender {
                targets.push(i);
                assert(targets@[targets@.len() - 1] == i);
                assert forall|j: int|
                    0 <= j < i && self.clients@[j].addr != sender implies exists|k: int|
                        0 <= k < targets@.len() && targets@[k] == j by {
                    let k = choose|k: int| 0 <= k < before.len() && before[k] == j;
                    assert(targets@[k] == j);
                }
            }
            i = i + 1;
        }
        targets
    }

    /// Sends the frame of `msg` to every peer but its sender, in order. A
    /// failed write is recorded and the broadcast goes on to the next peer;
    /// the registry itself is left as it is.
    pub fn broadcast_except<F>(&self, msg: &Message, send: F) -> (d: Delivery) where
        F: Fn(&H, &Vec<u8>) -> bool,

        requires
            forall|h: &H, frame: &Vec<u8>| send.requires((h, frame)),
        ensures
            d.frame@ == frame_of(msg.text_view(), msg.frame_size()),
            is_recipient_list(self.entries(), msg.sender(), d.targets@),
            attempted_each(self.entries(), send, d),
    {
        let frame = msg.raw();
        let targets = self.recipients(msg.get_sender_addr());
        let mut delivered: Vec<bool> = Vec::new();
        let mut k: usize = 0;
        while k < targets.len()
            invariant
                k <= targets@.len(),
                delivered@.len() == k,
                is_recipient_list(self.entries(), msg.sender(), targets@),
                forall|h: &H, frame: &Vec<u8>| send.requires((h, frame)),
                forall|j: int|
                    0 <= j < k ==> send.ensures(
                        (&self.entries()[targets@[j] as int].handle, &frame),
                        delivered@[j],
                    ),
            decreases targets@.len() - k,
        {
            let ok = send(&self.clients[targets[k]].handle, &frame);
            delivered.push(ok);
            k = k + 1;
        }
        Delivery { frame, targets, delivered }
    }
}

} // verus!
