use ed25519_dalek::{Signer, SigningKey};
use rostra::db::{Database, EventContentState, InsertEventOutcome, MAX_CONTENT_LEN};
use rostra::event::{
    Event, EventContent, Follow, Signature, Unfollow, KIND_FOLLOW, KIND_SOCIAL_POST, KIND_UNFOLLOW,
};
use rostra::ids::{PersonaId, RostraId, ShortEventId};
use rostra::storage::{ProcessEventState, Storage};
use rostra::verify::{VerifiedEvent, VerifiedEventContent};

fn key(seed: u8) -> SigningKey {
    SigningKey::from_bytes(&[seed; 32])
}

fn author_of(k: &SigningKey) -> RostraId {
    RostraId { bytes: k.verifying_key().to_bytes() }
}

struct Made {
    event: VerifiedEvent,
    content: EventContent,
}

impl Made {
    fn id(&self) -> ShortEventId {
        self.event.short_id()
    }

    fn verified_content(&self) -> VerifiedEventContent {
        VerifiedEventContent::verify(self.event, self.content.clone()).unwrap()
    }
}

#[allow(clippy::too_many_arguments)]
fn make(
    k: &SigningKey,
    kind: u16,
    prev: Option<ShortEventId>,
    aux: Option<ShortEventId>,
    delete: Option<ShortEventId>,
    ts: u64,
    body: Vec<u8>,
) -> Made {
    let content = EventContent { bytes: body };
    let e = Event::new(author_of(k), delete, kind, prev, aux, ts, &content);
    let sig = Signature { bytes: k.sign(&e.encode()).to_bytes() };
    let event = VerifiedEvent::verify_response(author_of(k), e.compute_short_id(), e, sig).unwrap();
    Made { event, content }
}

fn post(k: &SigningKey, prev: Option<ShortEventId>, ts: u64, body: &[u8]) -> Made {
    make(k, KIND_SOCIAL_POST, prev, None, None, ts, body.to_vec())
}

fn sorted(mut v: Vec<ShortEventId>) -> Vec<ShortEventId> {
    v.sort_by(|a, b| a.bytes.cmp(&b.bytes));
    v
}

fn chain(k: &SigningKey) -> (Made, Made, Made) {
    let e1 = post(k, None, 1, b"one");
    let e2 = post(k, Some(e1.id()), 2, b"two");
    let e3 = post(k, Some(e2.id()), 3, b"three");
    (e1, e2, e3)
}

#[test]
fn chain_insert_in_order() {
    let k = key(1);
    let a = author_of(&k);
    let (e1, e2, e3) = chain(&k);
    let mut s = Storage::new(Database::new(), a);
    for e in [&e1, &e2, &e3] {
        let (o, st) = s.process_event(&e.event);
        assert!(matches!(o, InsertEventOutcome::Inserted { was_missing: false, .. }));
        assert_eq!(st, ProcessEventState::New);
    }
    assert_eq!(s.db().get_heads(&a), vec![e3.id()]);
    assert!(s.db().get_missing(&a).is_empty());
    assert_eq!(s.get_self_current_head(), Some(e3.id()));
}

#[test]
fn out_of_order_insert() {
    let k = key(2);
    let a = author_of(&k);
    let (e1, e2, e3) = chain(&k);
    let mut s = Storage::new(Database::new(), a);
    let (o, _) = s.process_event(&e3.event);
    match o {
        InsertEventOutcome::Inserted { was_missing, missing_parents, .. } => {
            assert!(!was_missing);
            assert_eq!(missing_parents, vec![e2.id()]);
        }
        InsertEventOutcome::AlreadyPresent => panic!("expected an insert"),
    }
    assert_eq!(s.db().get_heads(&a), vec![e3.id()]);
    assert_eq!(s.db().get_missing(&a), vec![e2.id()]);
    s.process_event(&e1.event);
    assert_eq!(sorted(s.db().get_heads(&a)), sorted(vec![e3.id(), e1.id()]));
    assert_eq!(s.db().get_missing(&a), vec![e2.id()]);
    let (o, _) = s.process_event(&e2.event);
    assert!(matches!(o, InsertEventOutcome::Inserted { was_missing: true, .. }));
    assert_eq!(s.db().get_heads(&a), vec![e3.id()]);
    assert!(s.db().get_missing(&a).is_empty());
}

#[test]
fn insert_is_idempotent() {
    let k = key(3);
    let a = author_of(&k);
    let (e1, _, _) = chain(&k);
    let mut s = Storage::new(Database::new(), a);
    s.process_event(&e1.event);
    let (o, st) = s.process_event(&e1.event);
    assert!(matches!(o, InsertEventOutcome::AlreadyPresent));
    assert_eq!(st, ProcessEventState::Existing);
    assert_eq!(s.db().get_heads(&a), vec![e1.id()]);
    assert!(s.has_event(e1.id()));
    assert!(s.wants_content(e1.id(), st));
}

#[test]
fn delete_event_tombstones_content() {
    let k = key(4);
    let a = author_of(&k);
    let e1 = post(&k, None, 1, b"hello");
    let mut s = Storage::new(Database::new(), a);
    s.process_event_with_content(&e1.event, &e1.verified_content());
    assert_eq!(s.get_event_content(e1.id()).map(|c| c.bytes), Some(b"hello".to_vec()));
    let del = make(&k, KIND_SOCIAL_POST, Some(e1.id()), None, Some(e1.id()), 2, vec![]);
    s.process_event(&del.event);
    match s.db().get_content_state(&e1.id()) {
        Some(EventContentState::Deleted { deleted_by }) => assert_eq!(deleted_by, del.id()),
        _ => panic!("expected a deletion"),
    }
    assert!(!s.process_event_content(&e1.verified_content()));
    assert!(s.get_event_content(e1.id()).is_none());
    assert!(matches!(s.db().get_content_state(&e1.id()), Some(EventContentState::Deleted { .. })));
}

#[test]
fn delete_before_target_arrives() {
    let k = key(5);
    let a = author_of(&k);
    let e1 = post(&k, None, 1, b"hello");
    let del = make(&k, KIND_SOCIAL_POST, None, None, Some(e1.id()), 2, vec![]);
    let mut s = Storage::new(Database::new(), a);
    s.process_event(&del.event);
    assert_eq!(s.db().get_missing(&a), vec![e1.id()]);
    let (o, st) = s.process_event(&e1.event);
    assert!(matches!(o, InsertEventOutcome::Inserted { was_missing: true, is_deleted: true, .. }));
    assert_eq!(st, ProcessEventState::Deleted);
    assert!(!s.wants_content(e1.id(), st));
}

#[test]
fn oversize_content_is_pruned() {
    let k = key(6);
    let a = author_of(&k);
    let big = vec![0u8; MAX_CONTENT_LEN as usize + 1];
    let e = post(&k, None, 1, &big);
    let mut s = Storage::new(Database::new(), a);
    let (_, st) = s.process_event(&e.event);
    assert_eq!(st, ProcessEventState::Pruned);
    assert!(matches!(s.db().get_content_state(&e.id()), Some(EventContentState::Pruned)));
    assert!(!s.wants_content(e.id(), st));
    assert!(!s.process_event_content(&e.verified_content()));
    assert!(s.get_event_content(e.id()).is_none());
}

#[test]
fn content_at_limit_is_stored() {
    let k = key(7);
    let a = author_of(&k);
    let body = vec![1u8; MAX_CONTENT_LEN as usize];
    let e = post(&k, None, 1, &body);
    let mut s = Storage::new(Database::new(), a);
    let (_, st) = s.process_event(&e.event);
    assert_eq!(st, ProcessEventState::New);
    s.process_event_content(&e.verified_content());
    assert_eq!(s.get_event_content(e.id()).map(|c| c.bytes.len()), Some(MAX_CONTENT_LEN as usize));
    assert!(!s.wants_content(e.id(), ProcessEventState::Existing));
}

fn follow(k: &SigningKey, b: RostraId, persona: u8, ts: u64) -> Made {
    let body = Follow { followee: b, persona: PersonaId { id: persona } }.to_bytes();
    make(k, KIND_FOLLOW, None, None, None, ts, body)
}

fn unfollow(k: &SigningKey, b: RostraId, ts: u64) -> Made {
    let body = Unfollow { followee: b }.to_bytes();
    make(k, KIND_UNFOLLOW, None, None, None, ts, body)
}

fn apply(s: &mut Storage, m: &Made) -> bool {
    s.process_event(&m.event);
    s.process_event_content(&m.verified_content())
}

#[test]
fn follow_unfollow_reorder() {
    let k = key(8);
    let a = author_of(&k);
    let b = RostraId { bytes: [0xbb; 32] };
    let mut s = Storage::new(Database::new(), a);
    assert!(!apply(&mut s, &unfollow(&k, b, 10)));
    assert!(!apply(&mut s, &follow(&k, b, 2, 5)));
    assert_eq!(s.db().get_followee(&a, &b), None);
    assert!(s.db().has_unfollow(&a, &b, 10));
    assert!(s.get_self_followees().is_empty());
}

#[test]
fn follow_last_writer_wins() {
    let k = key(9);
    let a = author_of(&k);
    let b = RostraId { bytes: [0xcc; 32] };
    let mut s = Storage::new(Database::new(), a);
    assert!(apply(&mut s, &follow(&k, b, 1, 20)));
    assert!(!apply(&mut s, &follow(&k, b, 7, 15)));
    assert!(!apply(&mut s, &unfollow(&k, b, 12)));
    let rec = s.db().get_followee(&a, &b).unwrap();
    assert_eq!((rec.persona.id, rec.timestamp), (1, 20));
    assert_eq!(s.db().get_follower(&b, &a), Some(rec));
    assert_eq!(s.get_self_followees(), vec![(b, PersonaId { id: 1 })]);
    assert!(apply(&mut s, &unfollow(&k, b, 30)));
    assert_eq!(s.db().get_followee(&a, &b), None);
    assert_eq!(s.db().get_follower(&b, &a), None);
    assert!(!apply(&mut s, &follow(&k, b, 3, 25)));
    assert_eq!(s.db().get_followee(&a, &b), None);
}

#[test]
fn follow_by_other_author_is_not_self_update() {
    let me = key(10);
    let other = key(11);
    let b = RostraId { bytes: [0xdd; 32] };
    let mut s = Storage::new(Database::new(), author_of(&me));
    assert!(!apply(&mut s, &follow(&other, b, 1, 5)));
    assert!(s.db().get_followee(&author_of(&other), &b).is_some());
}

#[test]
fn malformed_follow_is_ignored() {
    let k = key(12);
    let a = author_of(&k);
    let m = make(&k, KIND_FOLLOW, None, None, None, 3, vec![1, 2, 3]);
    let mut s = Storage::new(Database::new(), a);
    assert!(!apply(&mut s, &m));
    assert_eq!(s.get_event_content(m.id()).map(|c| c.bytes), Some(vec![1, 2, 3]));
    assert!(s.get_self_followees().is_empty());
}

#[test]
fn self_head_and_random_event() {
    let k = key(13);
    let a = author_of(&k);
    let (e1, e2, _) = chain(&k);
    let mut s = Storage::new(Database::new(), a);
    assert_eq!(s.get_self_random_eventid(3), None);
    let (o, _) = s.process_event(&e1.event);
    assert_eq!(s.new_self_head(&e1.event, &o), Some(e1.id()));
    let (o, _) = s.process_event(&e2.event);
    assert_eq!(s.new_self_head(&e2.event, &o), Some(e2.id()));
    let (o, _) = s.process_event(&e2.event);
    assert_eq!(s.new_self_head(&e2.event, &o), None);
    let picked = s.get_self_random_eventid(7).unwrap();
    assert!(picked == e1.id() || picked == e2.id());
    assert!(s.get_event(e1.id()).is_some());
    assert!(s.get_event(ShortEventId { bytes: [0xee; 16] }).is_none());
}

#[test]
fn other_author_event_is_not_self_head() {
    let me = key(14);
    let other = key(15);
    let e = post(&other, None, 1, b"x");
    let mut s = Storage::new(Database::new(), author_of(&me));
    let (o, _) = s.process_event(&e.event);
    assert_eq!(s.new_self_head(&e.event, &o), None);
    assert_eq!(s.get_self_current_head(), None);
    assert_eq!(s.get_self_random_eventid(0), None);
}

#[test]
fn smallest_head_is_current() {
    let k = key(16);
    let a = author_of(&k);
    let x = post(&k, None, 1, b"x");
    let y = post(&k, None, 2, b"y");
    let mut s = Storage::new(Database::new(), a);
    s.process_event(&x.event);
    s.process_event(&y.event);
    let smallest = if x.id().bytes < y.id().bytes { x.id() } else { y.id() };
    assert_eq!(s.get_self_current_head(), Some(smallest));
}

#[test]
fn missing_set_independent_of_order() {
    let k = key(17);
    let a = author_of(&k);
    let (e1, e2, e3) = chain(&k);
    let orders: [[&Made; 3]; 3] = [[&e1, &e2, &e3], [&e3, &e2, &e1], [&e2, &e3, &e1]];
    for order in orders.iter() {
        let mut s = Storage::new(Database::new(), a);
        for m in order.iter() {
            s.process_event(&m.event);
        }
        assert!(s.db().get_missing(&a).is_empty());
        assert_eq!(s.db().get_heads(&a), vec![e3.id()]);
        for m in [&e1, &e2, &e3] {
            assert!(s.has_event(m.id()));
        }
    }
}

#[test]
fn follow_tie_broken_by_short_id() {
    let k = key(18);
    let a = author_of(&k);
    let b = RostraId { bytes: [0xab; 32] };
    let f1 = follow(&k, b, 1, 20);
    let f2 = follow(&k, b, 2, 20);
    let winner = if f1.id().bytes > f2.id().bytes { 1 } else { 2 };
    for order in [[&f1, &f2], [&f2, &f1]] {
        let mut s = Storage::new(Database::new(), a);
        for m in order {
            apply(&mut s, m);
        }
        let rec = s.db().get_followee(&a, &b).unwrap();
        assert_eq!(rec.persona.id, winner);
        assert_eq!(rec.timestamp, 20);
        assert_eq!(s.db().get_follower(&b, &a), Some(rec));
    }
}

#[test]
fn self_followees_listed_once() {
    let k = key(19);
    let a = author_of(&k);
    let b = RostraId { bytes: [0x11; 32] };
    let c = RostraId { bytes: [0x22; 32] };
    let mut s = Storage::new(Database::new(), a);
    apply(&mut s, &follow(&k, b, 1, 1));
    apply(&mut s, &follow(&k, b, 4, 2));
    apply(&mut s, &follow(&k, c, 3, 3));
    let mut got = s.get_self_followees();
    got.sort_by(|x, y| x.0.bytes.cmp(&y.0.bytes));
    assert_eq!(got, vec![(b, PersonaId { id: 4 }), (c, PersonaId { id: 3 })]);
}

#[test]
fn two_authors_interleaved() {
    let ka = key(20);
    let kb = key(21);
    let a = author_of(&ka);
    let b = author_of(&kb);
    let (a1, a2, a3) = chain(&ka);
    let (b1, b2, b3) = chain(&kb);
    let mut s = Storage::new(Database::new(), a);
    for m in [&a3, &b2, &a1, &b3] {
        s.process_event(&m.event);
    }
    assert_eq!(s.db().get_missing(&a), vec![a2.id()]);
    assert_eq!(s.db().get_missing(&b), vec![b1.id()]);
    assert_eq!(sorted(s.db().get_heads(&a)), sorted(vec![a3.id(), a1.id()]));
    assert_eq!(s.db().get_heads(&b), vec![b3.id()]);
    s.process_event(&a2.event);
    s.process_event(&b1.event);
    assert!(s.db().get_missing(&a).is_empty());
    assert!(s.db().get_missing(&b).is_empty());
    assert_eq!(s.db().get_heads(&a), vec![a3.id()]);
    assert_eq!(s.db().get_heads(&b), vec![b3.id()]);
}
