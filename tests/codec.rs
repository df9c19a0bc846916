use rostra::rpc::{check_request_len, check_response_len, RpcError, MAX_REQUEST_SIZE, MAX_RESPONSE_SIZE};
use ed25519_dalek::{Signer, SigningKey};
use rostra::event::{
    ContentDecodeError, Event, EventContent, Follow, Signature, SignedEvent, Unfollow, FLAG_DELETE,
    KIND_FOLLOW, KIND_SOCIAL_POST,
};
use rostra::ids::{ContentHash, PersonaId, RostraId, ShortEventId};
use rostra::db::Database;
use rostra::storage::{ContentWantState, ProcessEventState};
use rostra::verify::{
    content_verdict, response_verdict, ContentVerifyError, EventVerifyError, VerifiedEvent,
    VerifiedEventContent,
};

fn key(seed: u8) -> SigningKey {
    SigningKey::from_bytes(&[seed; 32])
}

fn author_of(k: &SigningKey) -> RostraId {
    RostraId { bytes: k.verifying_key().to_bytes() }
}

fn sign(k: &SigningKey, e: &Event) -> Signature {
    Signature { bytes: k.sign(&e.encode()).to_bytes() }
}

fn sample_event() -> Event {
    let k = key(1);
    let content = EventContent { bytes: b"hello".to_vec() };
    Event::new(
        author_of(&k),
        None,
        KIND_SOCIAL_POST,
        Some(ShortEventId { bytes: [7; 16] }),
        None,
        0x0102_0304_0506_0708,
        &content,
    )
}

#[test]
fn encode_layout_is_bit_exact() {
    let e = sample_event();
    let b = e.encode();
    assert_eq!(b.len(), 128);
    assert_eq!(b[0], 0);
    assert_eq!(b[1], 0);
    assert_eq!(&b[2..4], &[0, 0]);
    assert_eq!(&b[4..8], &[5, 0, 0, 0]);
    assert_eq!(&b[8..24], &[0u8; 16]);
    assert_eq!(&b[24..32], &[8, 7, 6, 5, 4, 3, 2, 1]);
    assert_eq!(&b[32..64], &e.author.bytes);
    assert_eq!(&b[64..80], &[7u8; 16]);
    assert_eq!(&b[80..96], &[0u8; 16]);
    assert_eq!(&b[96..128], blake3::hash(b"hello").as_bytes());
}

#[test]
fn decode_round_trips() {
    let e = sample_event();
    let d = Event::decode(&e.encode()).unwrap();
    assert_eq!(d, e);
    assert_eq!(d.compute_id(), e.compute_id());
}

#[test]
fn decode_refuses_wrong_length() {
    let e = sample_event();
    let b = e.encode();
    assert_eq!(Event::decode(&b[..127]), None);
    let mut longer = b.clone();
    longer.push(0);
    assert_eq!(Event::decode(&longer), None);
    assert_eq!(Event::decode(&[]), None);
}

#[test]
fn compute_id_is_blake3_of_encoding() {
    let e = sample_event();
    let id = e.compute_id();
    assert_eq!(&id.bytes, blake3::hash(&e.encode()).as_bytes());
    let short = e.compute_short_id();
    assert_eq!(&short.bytes[..], &id.bytes[..16]);
    let se = SignedEvent { event: e, sig: Signature { bytes: [0; 64] } };
    assert_eq!(se.compute_id(), id);
    assert_eq!(se.compute_short_id(), short);
}

#[test]
fn content_hash_same_bytes_same_hash() {
    let a = EventContent { bytes: vec![1, 2, 3] };
    let b = EventContent { bytes: vec![1, 2, 3] };
    assert_eq!(a.compute_content_hash(), b.compute_content_hash());
    assert_eq!(&a.compute_content_hash().bytes, blake3::hash(&[1, 2, 3]).as_bytes());
}

#[test]
fn content_hash_single_bit_change() {
    let a = EventContent { bytes: vec![1, 2, 3] };
    let c = EventContent { bytes: vec![1, 2, 2] };
    assert_ne!(a.compute_content_hash(), c.compute_content_hash());
}

#[test]
fn event_new_delete_sets_flag_and_aux() {
    let k = key(2);
    let target = ShortEventId { bytes: [9; 16] };
    let content = EventContent { bytes: vec![] };
    let e = Event::new(author_of(&k), Some(target), KIND_SOCIAL_POST, None, None, 5, &content);
    assert_eq!(e.flags, FLAG_DELETE);
    assert!(e.is_delete());
    assert_eq!(e.parent_aux, target);
    assert!(e.parent_prev.is_zero());
    assert_eq!(e.content_len, 0);
    assert_eq!(e.timestamp, 5);
    assert_eq!(e.version, 0);
}

#[test]
fn verify_response_accepts_valid_event() {
    let k = key(3);
    let e = sample_event_by(&k);
    let sig = sign(&k, &e);
    let v = VerifiedEvent::verify_response(author_of(&k), e.compute_short_id(), e, sig).unwrap();
    assert_eq!(*v.event(), e);
    assert_eq!(v.short_id(), e.compute_short_id());
    assert_eq!(v.event_id(), e.compute_id());
}

fn sample_event_by(k: &SigningKey) -> Event {
    let content = EventContent { bytes: b"x".to_vec() };
    Event::new(author_of(k), None, KIND_SOCIAL_POST, None, None, 1, &content)
}

#[test]
fn verify_response_author_mismatch() {
    let k = key(3);
    let e = sample_event_by(&k);
    let sig = sign(&k, &e);
    let other = author_of(&key(4));
    let r = VerifiedEvent::verify_response(other, e.compute_short_id(), e, sig);
    assert_eq!(r.err(), Some(EventVerifyError::AuthorMismatch));
}

#[test]
fn verify_response_id_mismatch() {
    let k = key(3);
    let e = sample_event_by(&k);
    let sig = sign(&k, &e);
    let r = VerifiedEvent::verify_response(author_of(&k), ShortEventId { bytes: [1; 16] }, e, sig);
    assert_eq!(r.err(), Some(EventVerifyError::IdMismatch));
}

#[test]
fn verify_response_bad_signature() {
    let k = key(3);
    let e = sample_event_by(&k);
    let mut sig = sign(&k, &e);
    sig.bytes[0] ^= 1;
    let r = VerifiedEvent::verify_response(author_of(&k), e.compute_short_id(), e, sig);
    assert_eq!(r.err(), Some(EventVerifyError::BadSignature));
    let wrong = sign(&key(5), &e);
    let r = VerifiedEvent::verify_response(author_of(&k), e.compute_short_id(), e, wrong);
    assert_eq!(r.err(), Some(EventVerifyError::BadSignature));
}

#[test]
fn response_verdict_orders_checks() {
    let e = sample_event();
    let a = e.author;
    let id = ShortEventId { bytes: [1; 16] };
    let other = ShortEventId { bytes: [2; 16] };
    let stranger = RostraId { bytes: [0; 32] };
    assert_eq!(response_verdict(&e, &stranger, &id, &other, false), Err(EventVerifyError::AuthorMismatch));
    assert_eq!(response_verdict(&e, &a, &id, &other, false), Err(EventVerifyError::IdMismatch));
    assert_eq!(response_verdict(&e, &a, &id, &id, false), Err(EventVerifyError::BadSignature));
    assert_eq!(response_verdict(&e, &a, &id, &id, true), Ok(()));
}

#[test]
fn content_verify_checks_length_then_hash() {
    let k = key(6);
    let e = sample_event_by(&k);
    let sig = sign(&k, &e);
    let v = VerifiedEvent::verify_response(author_of(&k), e.compute_short_id(), e, sig).unwrap();
    let r = VerifiedEventContent::verify(v, EventContent { bytes: b"xy".to_vec() });
    assert_eq!(r.err(), Some(ContentVerifyError::ContentLenMismatch));
    let r = VerifiedEventContent::verify(v, EventContent { bytes: b"y".to_vec() });
    assert_eq!(r.err(), Some(ContentVerifyError::ContentHashMismatch));
    let c = VerifiedEventContent::verify(v, EventContent { bytes: b"x".to_vec() }).unwrap();
    assert_eq!(c.content().bytes, b"x".to_vec());
}

#[test]
fn content_verdict_cases() {
    let e = sample_event();
    let good = e.content_hash;
    let bad = ContentHash { bytes: [0; 32] };
    assert_eq!(content_verdict(&e, 4, &good), Err(ContentVerifyError::ContentLenMismatch));
    assert_eq!(content_verdict(&e, 5, &bad), Err(ContentVerifyError::ContentHashMismatch));
    assert_eq!(content_verdict(&e, 5, &good), Ok(()));
}

#[test]
fn follow_payload_round_trips() {
    let f = Follow { followee: RostraId { bytes: [3; 32] }, persona: PersonaId { id: 2 } };
    let c = EventContent { bytes: f.to_bytes() };
    assert_eq!(c.bytes.len(), 33);
    assert_eq!(c.decode::<Follow>(), Ok(f));
    let u = Unfollow { followee: RostraId { bytes: [4; 32] } };
    let c = EventContent { bytes: u.to_bytes() };
    assert_eq!(c.decode::<Unfollow>(), Ok(u));
    assert_eq!(c.decode::<Follow>(), Err(ContentDecodeError::UnexpectedEnd));
    let _ = KIND_FOLLOW;
}

#[test]
fn wants_content_by_state() {
    assert_eq!(ProcessEventState::New.wants_content(), ContentWantState::Wants);
    assert_eq!(ProcessEventState::Existing.wants_content(), ContentWantState::MaybeWants);
    assert_eq!(ProcessEventState::Pruned.wants_content(), ContentWantState::DoesNotWant);
    assert_eq!(ProcessEventState::Deleted.wants_content(), ContentWantState::DoesNotWant);
}

#[test]
fn rpc_frame_limits() {
    assert_eq!(check_request_len(MAX_REQUEST_SIZE), Ok(()));
    assert_eq!(
        check_request_len(MAX_REQUEST_SIZE + 1),
        Err(RpcError::RequestTooLarge { len: MAX_REQUEST_SIZE + 1 })
    );
    assert_eq!(check_response_len(MAX_RESPONSE_SIZE), Ok(()));
    assert_eq!(
        check_response_len(MAX_RESPONSE_SIZE + 1),
        Err(RpcError::ResponseTooLarge { len: MAX_RESPONSE_SIZE + 1 })
    );
    assert!(MAX_RESPONSE_SIZE >= 2 * rostra::db::MAX_CONTENT_LEN);
}
