use vstd::prelude::*;

use crate::crypto::{blake3_of, ed25519_verify, signature_accepted};
use crate::event::{event_id_of, short_id_of, spec_encode, Event, EventContent, Signature};
use crate::ids::{EventId, RostraId, ShortEventId};

verus! {

/// Why an event received from a peer was refused.
#[derive(Clone, Copy, Debug, PartialEq, Eq)]
pub enum EventVerifyError {
    /// The event's author is not the one asked for.
    AuthorMismatch,
    /// The event's short id is not the one asked for.
    IdMismatch,
    /// The signature does not verify under the author's key.
    BadSignature,
}

/// Why content received for an event was refused.
#[derive(Clone, Copy, Debug, PartialEq, Eq)]
pub enum ContentVerifyError {
    /// The content's length is not the event's `content_len`.
    ContentLenMismatch,
    /// The content's digest is not the event's `content_hash`.
    ContentHashMismatch,
}

/// An event whose author, id and signature were checked. Only
/// `VerifiedEvent::verify_response` makes one.
#[derive(Clone, Copy, Debug)]
pub struct VerifiedEvent {
    event_id: EventId,
    event: Event,
    sig: Signature,
}

/// Content checked against a verified event. Only
/// `VerifiedEventContent::verify` makes one.
#[derive(Debug)]
pub struct VerifiedEventContent {
    event: VerifiedEvent,
    content: EventContent,
}

/// The outcome of checking a response, given the short id computed from the
/// event and whether its signature verified.
pub open spec fn spec_response_verdict(
    event: Event,
    expected_author: RostraId,
    expected_short_id: ShortEventId,
    computed_short_id: ShortEventId,
    signature_ok: bool,
) -> Result<(), EventVerifyError> {
    if event.author != expected_author {
        Err(EventVerifyError::AuthorMismatch)
    } else if computed_short_id != expected_short_id {
        Err(EventVerifyError::IdMismatch)
    } else if !signature_ok {
        Err(EventVerifyError::BadSignature)
    } else {
        Ok(())
    }
}

/// Decides the outcome of checking a response from the short id computed
/// from the event and from whether its signature verified.
pub fn response_verdict(
    event: &Event,
    expected_author: &RostraId,
    expected_short_id: &ShortEventId,
    computed_short_id: &ShortEventId,
    signature_ok: bool,
) -> (r: Result<(), EventVerifyError>)
    ensures
        r == spec_response_verdict(
            *event,
            *expected_author,
            *expected_short_id,
            *computed_short_id,
            signature_ok,
        ),
{
    if !event.author.same(expected_author) {
        Err(EventVerifyError::AuthorMismatch)
    } else if !computed_short_id.same(expected_short_id) {
        Err(EventVerifyError::IdMismatch)
    } else if !signature_ok {
        Err(EventVerifyError::BadSignature)
    } else {
        Ok(())
    }
}

/// The outcome of checking content against an event, given the digest
/// computed from the content bytes.
pub open spec fn spec_content_verdict(event: Event, content_len: nat, computed_hash: Seq<u8>) -> Result<
    (),
    ContentVerifyError,
> {
    if content_len != event.content_len as nat {
        Err(ContentVerifyError::ContentLenMismatch)
    } else if computed_hash != event.content_hash.bytes@ {
        Err(ContentVerifyError::ContentHashMismatch)
    } else {
        Ok(())
    }
}

/// Decides the outcome of checking content against an event from the
/// content's length and the digest computed from its bytes.
pub fn content_verdict(event: &Event, content_len: usize, computed_hash: &crate::ids::ContentHash) -> (r:
    Result<(), ContentVerifyError>)
    ensures
        r == spec_content_verdict(*event, content_len as nat, computed_hash.bytes@),
{
    proof {
        if computed_hash.bytes@ == event.content_hash.bytes@ {
            crate::event::lemma_array32_view_eq(computed_hash.bytes, event.content_hash.bytes);
        }
    }
    if content_len != event.content_len as usize {
        Err(ContentVerifyError::ContentLenMismatch)
    } else if !computed_hash.same(&event.content_hash) {
        Err(ContentVerifyError::ContentHashMismatch)
    } else {
        Ok(())
    }
}

impl VerifiedEvent {
    pub closed spec fn spec_event(self) -> Event {
        self.event
    }

    pub closed spec fn spec_event_id(self) -> EventId {
        self.event_id
    }

    pub closed spec fn spec_sig(self) -> Signature {
        self.sig
    }

    /// What every verified event satisfies: its id is the digest of its
    /// encoding and its signature verifies under its author.
    pub closed spec fn wf(self) -> bool {
        &&& self.event_id.bytes@ == event_id_of(self.event)
        &&& signature_accepted(self.event.author.bytes@, spec_encode(self.event), self.sig.bytes@)
    }

    /// The verified event that a signed event becomes where it passes.
    pub closed spec fn spec_of(se: crate::event::SignedEvent) -> VerifiedEvent {
        VerifiedEvent {
            event_id: EventId { bytes: crate::event::array32_of(event_id_of(se.event)) },
            event: se.event,
            sig: se.sig,
        }
    }

    /// The short id under which the event is stored.
    pub open spec fn spec_short_id(self) -> ShortEventId {
        ShortEventId { bytes: crate::event::array16_of(self.spec_event_id().bytes@.subrange(0, 16)) }
    }

    /// Checks an event that a peer sent for `expected_short_id` of
    /// `expected_author`: the author, then the id, then the signature.
    pub fn verify_response(
        expected_author: RostraId,
        expected_short_id: ShortEventId,
        event: Event,
        sig: Signature,
    ) -> (r: Result<VerifiedEvent, EventVerifyError>)
        ensures
            r is Ok <==> (event.author == expected_author && short_id_of(event)
                == expected_short_id.bytes@ && signature_accepted(
                event.author.bytes@,
                spec_encode(event),
                sig.bytes@,
            )),
            r matches Err(e) ==> (event.author != expected_author ==> e
                == EventVerifyError::AuthorMismatch),
            r matches Err(e) ==> (event.author == expected_author && short_id_of(event)
                != expected_short_id.bytes@ ==> e == EventVerifyError::IdMismatch),
            r matches Err(e) ==> (event.author == expected_author && short_id_of(event)
                == expected_short_id.bytes@ ==> e == EventVerifyError::BadSignature),
            r matches Ok(v) ==> v.spec_event() == event && v.spec_sig() == sig
                && v.spec_event_id().bytes@ == event_id_of(event) && v.wf()
                && v == VerifiedEvent::spec_of(crate::event::SignedEvent { event, sig }),
    {
        let encoded = event.encode();
        let event_id = EventId { bytes: crate::crypto::blake3_hash(encoded.as_slice()) };
        let short = event_id.to_short();
        let signature_ok = if event.author.same(&expected_author) && short.same(
            &expected_short_id,
        ) {
            ed25519_verify(&event.author.bytes, encoded.as_slice(), &sig.bytes)
        } else {
            false
        };
        proof {
            if short.bytes@ == expected_short_id.bytes@ {
                crate::event::lemma_array16_view_eq(short.bytes, expected_short_id.bytes);
            }
        }
        proof {
            crate::event::lemma_choose32(event_id_of(event), event_id.bytes);
        }
        match response_verdict(&event, &expected_author, &expected_short_id, &short, signature_ok) {
            Ok(()) => Ok(VerifiedEvent { event_id, event, sig }),
            Err(e) => Err(e),
        }
    }

    pub fn event(&self) -> (r: &Event)
        ensures
            *r == self.spec_event(),
    {
        &self.event
    }

    pub fn event_id(&self) -> (r: EventId)
        ensures
            r == self.spec_event_id(),
    {
        self.event_id
    }

    pub fn sig(&self) -> (r: Signature)
        ensures
            r == self.spec_sig(),
    {
        self.sig
    }

    pub fn short_id(&self) -> (r: ShortEventId)
        ensures
            r == self.spec_short_id(),
    {
        let s = self.event_id.to_short();
        proof {
            crate::event::lemma_choose16(self.event_id.bytes@.subrange(0, 16), s.bytes);
        }
        s
    }
}

impl VerifiedEventContent {
    /// The content has the event's declared length and digest.
    #[verifier::type_invariant]
    spec fn inv(self) -> bool {
        &&& self.content.bytes@.len() == self.event.event.content_len as nat
        &&& blake3_of(self.content.bytes@) == self.event.event.content_hash.bytes@
    }

    /// What every verified content satisfies: it has the length and the
    /// digest that its event declares.
    pub open spec fn wf(self) -> bool {
        &&& self.spec_content().len() == self.spec_event().spec_event().content_len as nat
        &&& blake3_of(self.spec_content()) == self.spec_event().spec_event().content_hash.bytes@
    }

    pub closed spec fn spec_event(self) -> VerifiedEvent {
        self.event
    }

    pub closed spec fn spec_content(self) -> Seq<u8> {
        self.content.bytes@
    }

    /// Checks content received for a verified event: its length, then its
    /// digest.
    pub fn verify(event: VerifiedEvent, content: EventContent) -> (r: Result<
        VerifiedEventContent,
        ContentVerifyError,
    >)
        ensures
            r is Ok <==> (content.bytes@.len() == event.spec_event().content_len as nat && blake3_of(
                content.bytes@,
            ) == event.spec_event().content_hash.bytes@),
            r matches Err(e) ==> (content.bytes@.len() != event.spec_event().content_len as nat
                <==> e == ContentVerifyError::ContentLenMismatch),
            r matches Ok(v) ==> v.spec_event() == event && v.spec_content() == content.bytes@ && v.wf(),
    {
        let hash = content.compute_content_hash();
        match content_verdict(&event.event, content.bytes.len(), &hash) {
            Ok(()) => Ok(VerifiedEventContent { event, content }),
            Err(e) => Err(e),
        }
    }

    pub fn event(&self) -> (r: &VerifiedEvent)
        ensures
            *r == self.spec_event(),
            self.wf(),
    {
        proof {
            use_type_invariant(self);
        }
        &self.event
    }

    pub fn content(&self) -> (r: &EventContent)
        ensures
            r.bytes@ == self.spec_content(),
            self.wf(),
    {
        proof {
            use_type_invariant(self);
        }
        &self.content
    }
}

} // verus!
