use std::cell::RefCell;
use std::sync::Arc;

use message::message::{Message, PeerAddr};
use message::registry::Registry;

/// A stand-in for a connection: what was written to it, and whether writes fail.
struct Peer {
    broken: bool,
    inbox: RefCell<Vec<Vec<u8>>>,
}

fn peer(broken: bool) -> Peer {
    Peer { broken, inbox: RefCell::new(Vec::new()) }
}

fn send(p: &Peer, frame: &Vec<u8>) -> bool {
    if p.broken {
        false
    } else {
        p.inbox.borrow_mut().push(frame.clone());
        true
    }
}

fn addr(port: u16) -> PeerAddr {
    PeerAddr::V4 { ip4: 0x7f00_0001, port }
}

fn frame(text: &str) -> Vec<u8> {
    let mut v = text.as_bytes().to_vec();
    v.resize(32, 0);
    v
}

#[test]
fn add_and_remove() {
    let mut r: Registry<u8> = Registry::new();
    assert_eq!(r.len(), 0);
    r.add(addr(1), 10);
    r.add(addr(2), 20);
    assert_eq!(r.len(), 2);
    assert!(r.contains(addr(1)));
    assert!(r.remove_by_address(addr(1)));
    assert!(!r.contains(addr(1)));
    assert_eq!(r.len(), 1);
    assert_eq!(r.client(0).addr, addr(2));
    assert_eq!(r.client(0).handle, 20);
}

#[test]
fn removing_twice_is_removing_once() {
    let mut r: Registry<u8> = Registry::new();
    r.add(addr(1), 1);
    r.add(addr(2), 2);
    r.add(addr(3), 3);
    assert!(r.remove_by_address(addr(2)));
    assert_eq!(r.len(), 2);
    assert!(!r.remove_by_address(addr(2)));
    assert_eq!(r.len(), 2);
    assert_eq!(r.client(0).addr, addr(1));
    assert_eq!(r.client(1).addr, addr(3));
}

#[test]
fn removing_an_unknown_address_does_nothing() {
    let mut r: Registry<u8> = Registry::new();
    r.add(addr(1), 1);
    assert!(!r.remove_by_address(addr(9)));
    assert_eq!(r.len(), 1);
}

#[test]
fn adding_a_known_address_replaces_its_handle() {
    let mut r: Registry<u8> = Registry::new();
    r.add(addr(1), 1);
    r.add(addr(2), 2);
    r.add(addr(1), 7);
    assert_eq!(r.len(), 2);
    assert_eq!(r.client(0).addr, addr(1));
    assert_eq!(r.client(0).handle, 7);
}

#[test]
fn recipients_leave_out_the_sender() {
    let mut r: Registry<u8> = Registry::new();
    r.add(addr(1), 1);
    r.add(addr(2), 2);
    r.add(addr(3), 3);
    assert_eq!(r.recipients(addr(2)), vec![0, 2]);
    assert_eq!(r.recipients(addr(9)), vec![0, 1, 2]);
}

#[test]
fn broadcast_reaches_every_other_peer_once() {
    let mut r: Registry<Peer> = Registry::new();
    r.add(addr(1), peer(false));
    r.add(addr(2), peer(false));
    r.add(addr(3), peer(false));
    let m = Message::new(32, Arc::new("hello".to_string()), addr(1));
    let d = r.broadcast_except(&m, send);
    assert_eq!(d.frame, frame("hello"));
    assert_eq!(d.targets, vec![1, 2]);
    assert_eq!(d.delivered, vec![true, true]);
    assert!(r.client(0).handle.inbox.borrow().is_empty());
    assert_eq!(*r.client(1).handle.inbox.borrow(), vec![frame("hello")]);
    assert_eq!(*r.client(2).handle.inbox.borrow(), vec![frame("hello")]);
}

#[test]
fn a_broken_peer_does_not_stop_the_others() {
    let mut r: Registry<Peer> = Registry::new();
    r.add(addr(1), peer(false));
    r.add(addr(3), peer(true));
    r.add(addr(2), peer(false));
    let m = Message::new(32, Arc::new("m".to_string()), addr(1));
    let d = r.broadcast_except(&m, send);
    assert_eq!(d.targets, vec![1, 2]);
    assert_eq!(d.delivered, vec![false, true]);
    assert_eq!(*r.client(2).handle.inbox.borrow(), vec![frame("m")]);
    assert!(r.client(1).handle.inbox.borrow().is_empty());
    assert_eq!(r.len(), 3);
}
