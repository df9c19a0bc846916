use std::collections::HashMap;

use ed25519_dalek::{Signer, SigningKey};
use rostra::event::{Event, EventContent, Signature, SignedEvent, KIND_SOCIAL_POST};
use rostra::head_checker::{check_for_new_head, on_content_response, on_event_response, HeadWalk};
use rostra::ids::{RostraId, ShortEventId};
use rostra::db::Database;
use rostra::storage::Storage;
use rostra::verify::EventVerifyError;

fn key(seed: u8) -> SigningKey {
    SigningKey::from_bytes(&[seed; 32])
}

fn author_of(k: &SigningKey) -> RostraId {
    RostraId { bytes: k.verifying_key().to_bytes() }
}

struct Peer {
    events: HashMap<ShortEventId, SignedEvent>,
    contents: HashMap<ShortEventId, Vec<u8>>,
}

fn publish(peer: &mut Peer, k: &SigningKey, prev: Option<ShortEventId>, ts: u64, body: &[u8]) -> ShortEventId {
    let content = EventContent { bytes: body.to_vec() };
    let e = Event::new(author_of(k), None, KIND_SOCIAL_POST, prev, None, ts, &content);
    let sig = Signature { bytes: k.sign(&e.encode()).to_bytes() };
    let id = e.compute_short_id();
    peer.events.insert(id, SignedEvent { event: e, sig });
    peer.contents.insert(id, body.to_vec());
    id
}

fn walk(storage: &mut Storage, peer: &Peer, author: RostraId, head: ShortEventId) -> Result<usize, EventVerifyError> {
    let mut w = HeadWalk::new(author, head);
    let mut visited = 0;
    while let Some((_depth, id)) = w.pop() {
        visited += 1;
        let response = peer.events.get(&id).copied();
        if let Some(v) = on_event_response(storage, &mut w, id, response)? {
            let content = peer.contents.get(&id).cloned();
            on_content_response(storage, v, content).unwrap();
        }
    }
    Ok(visited)
}

#[test]
fn head_checker_walk_fetches_chain() {
    let k = key(1);
    let x = author_of(&k);
    let mut peer = Peer { events: HashMap::new(), contents: HashMap::new() };
    let e1 = publish(&mut peer, &k, None, 1, b"one");
    let e2 = publish(&mut peer, &k, Some(e1), 2, b"two");
    let e3 = publish(&mut peer, &k, Some(e2), 3, b"three");
    let mut s = Storage::new(Database::new(), author_of(&key(9)));
    assert_eq!(check_for_new_head(&s, Some(e3)), Some(e3));
    assert_eq!(walk(&mut s, &peer, x, e3), Ok(3));
    for id in [e1, e2, e3] {
        assert!(s.has_event(id));
    }
    assert_eq!(s.db().get_heads(&x), vec![e3]);
    assert!(s.db().get_missing(&x).is_empty());
    assert_eq!(s.get_event_content(e2).map(|c| c.bytes), Some(b"two".to_vec()));
    assert_eq!(check_for_new_head(&s, Some(e3)), None);
    assert_eq!(check_for_new_head(&s, None), None);
}

#[test]
fn walk_passes_over_events_the_peer_lacks() {
    let k = key(2);
    let x = author_of(&k);
    let mut peer = Peer { events: HashMap::new(), contents: HashMap::new() };
    let e1 = publish(&mut peer, &k, None, 1, b"one");
    let e2 = publish(&mut peer, &k, Some(e1), 2, b"two");
    peer.events.remove(&e1);
    let mut s = Storage::new(Database::new(), x);
    assert_eq!(walk(&mut s, &peer, x, e2), Ok(2));
    assert!(s.has_event(e2));
    assert_eq!(s.db().get_missing(&x), vec![e1]);
}

#[test]
fn walk_stops_on_wrong_author() {
    let k = key(3);
    let mut peer = Peer { events: HashMap::new(), contents: HashMap::new() };
    let e1 = publish(&mut peer, &k, None, 1, b"one");
    let mut s = Storage::new(Database::new(), author_of(&k));
    let stranger = author_of(&key(4));
    assert_eq!(walk(&mut s, &peer, stranger, e1), Err(EventVerifyError::AuthorMismatch));
    assert!(!s.has_event(e1));
}

#[test]
fn walk_queue_is_nearest_first() {
    let a = RostraId { bytes: [1; 32] };
    let h = ShortEventId { bytes: [1; 16] };
    let mut w = HeadWalk::new(a, h);
    assert_eq!(w.pop(), Some((0, h)));
    let p = ShortEventId { bytes: [2; 16] };
    let q = ShortEventId { bytes: [3; 16] };
    w.push_parents(&vec![p, q]);
    assert_eq!(w.pop(), Some((1, p)));
    let r = ShortEventId { bytes: [4; 16] };
    w.push_parents(&vec![r]);
    assert_eq!(w.pop(), Some((1, q)));
    assert_eq!(w.pop(), Some((2, r)));
    assert_eq!(w.pop(), None);
    assert_eq!(w.author(), a);
}
