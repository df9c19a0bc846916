use vstd::bytes::*;
use vstd::prelude::*;

use crate::crypto::{blake3_hash, blake3_of};
use crate::ids::{ContentHash, EventId, PersonaId, RostraId, ShortEventId};

verus! {

broadcast use vstd::array::group_array_axioms;

/// Length of the canonical encoding of an `Event`.
pub const EVENT_ENCODED_LEN: usize = 128;

/// Bit of `Event::flags` that marks a delete event.
pub const FLAG_DELETE: u8 = 1;

/// Kind of a social post.
pub const KIND_SOCIAL_POST: u16 = 0;

/// Kind of a follow: the content names the followee and a persona.
pub const KIND_FOLLOW: u16 = 1;

/// Kind of an unfollow: the content names the followee.
pub const KIND_UNFOLLOW: u16 = 2;

/// Kind of a profile update.
pub const KIND_PROFILE_UPDATE: u16 = 3;

/// The signed, fixed-layout header of a chain entry.
#[derive(Clone, Copy, Debug, PartialEq, Eq)]
pub struct Event {
    pub version: u8,
    pub flags: u8,
    pub kind: u16,
    pub content_len: u32,
    pub padding: [u8; 16],
    pub timestamp: u64,
    pub author: RostraId,
    pub parent_prev: ShortEventId,
    pub parent_aux: ShortEventId,
    pub content_hash: ContentHash,
}

/// A detached 64-byte signature.
#[derive(Clone, Copy, Debug, PartialEq, Eq)]
pub struct Signature {
    pub bytes: [u8; 64],
}

/// An event with its signature over the event's encoding.
#[derive(Clone, Copy, Debug, PartialEq, Eq)]
pub struct SignedEvent {
    pub event: Event,
    pub sig: Signature,
}

/// The content of an event: opaque bytes.
#[derive(Clone, Debug, PartialEq, Eq)]
pub struct EventContent {
    pub bytes: Vec<u8>,
}

/// The canonical 128-byte encoding of an event, little-endian.
pub open spec fn spec_encode(e: Event) -> Seq<u8> {
    seq![e.version, e.flags] + spec_u16_to_le_bytes(e.kind) + spec_u32_to_le_bytes(
        e.content_len,
    ) + e.padding@ + spec_u64_to_le_bytes(e.timestamp) + e.author.bytes@ + e.parent_prev.bytes@
        + e.parent_aux.bytes@ + e.content_hash.bytes@
}

/// The 16-byte array that holds `s`.
pub open spec fn array16_of(s: Seq<u8>) -> [u8; 16] {
    choose|a: [u8; 16]| a@ == s
}

/// The 32-byte array that holds `s`.
pub open spec fn array32_of(s: Seq<u8>) -> [u8; 32] {
    choose|a: [u8; 32]| a@ == s
}

/// Reads an event from its canonical encoding; `None` unless there are
/// exactly 128 bytes.
pub open spec fn spec_decode(s: Seq<u8>) -> Option<Event> {
    if s.len() == 128 {
        Some(
            Event {
                version: s[0],
                flags: s[1],
                kind: spec_u16_from_le_bytes(s.subrange(2, 4)),
                content_len: spec_u32_from_le_bytes(s.subrange(4, 8)),
                padding: array16_of(s.subrange(8, 24)),
                timestamp: spec_u64_from_le_bytes(s.subrange(24, 32)),
                author: RostraId { bytes: array32_of(s.subrange(32, 64)) },
                parent_prev: ShortEventId { bytes: array16_of(s.subrange(64, 80)) },
                parent_aux: ShortEventId { bytes: array16_of(s.subrange(80, 96)) },
                content_hash: ContentHash { bytes: array32_of(s.subrange(96, 128)) },
            },
        )
    } else {
        None
    }
}

/// The id of an event: the digest of its encoding.
pub open spec fn event_id_of(e: Event) -> Seq<u8> {
    blake3_of(spec_encode(e))
}

/// The short id of an event: the first 16 bytes of its id.
pub open spec fn short_id_of(e: Event) -> Seq<u8> {
    event_id_of(e).subrange(0, 16)
}

impl Event {
    pub open spec fn spec_is_delete(self) -> bool {
        self.flags & FLAG_DELETE == FLAG_DELETE
    }

    pub fn is_delete(&self) -> (r: bool)
        ensures
            r == self.spec_is_delete(),
    {
        self.flags & FLAG_DELETE == FLAG_DELETE
    }
}

/// Appends `s` to `v`.
fn push_bytes(v: &mut Vec<u8>, s: &[u8])
    ensures
        final(v)@ == old(v)@ + s@,
{
    let mut i: usize = 0;
    while i < s.len()
        invariant
            i <= s@.len(),
            v@ == old(v)@ + s@.subrange(0, i as int),
        decreases s@.len() - i,
    {
        v.push(s[i]);
        i = i + 1;
        assert(v@ =~= old(v)@ + s@.subrange(0, i as int));
    }
    assert(s@.subrange(0, s@.len() as int) =~= s@);
}

/// Copies 16 bytes of `s` from `off`.
fn read16(s: &[u8], off: usize) -> (r: [u8; 16])
    requires
        off + 16 <= s@.len(),
    ensures
        r@ == s@.subrange(off as int, off + 16),
{
    let n = s.len();
    let mut out = [0u8; 16];
    let mut i: usize = 0;
    while i < 16
        invariant
            i <= 16,
            n == s@.len(),
            off + 16 <= s@.len(),
            out@.len() == 16,
            forall|j: int| 0 <= j < i ==> out@[j] == s@[off + j],
        decreases 16 - i,
    {
        out[i] = s[off + i];
        i = i + 1;
    }
    assert(out@ =~= s@.subrange(off as int, off + 16));
    out
}

/// Copies 32 bytes of `s` from `off`.
fn read32(s: &[u8], off: usize) -> (r: [u8; 32])
    requires
        off + 32 <= s@.len(),
    ensures
        r@ == s@.subrange(off as int, off + 32),
{
    let n = s.len();
    let mut out = [0u8; 32];
    let mut i: usize = 0;
    while i < 32
        invariant
            i <= 32,
            n == s@.len(),
            off + 32 <= s@.len(),
            out@.len() == 32,
            forall|j: int| 0 <= j < i ==> out@[j] == s@[off + j],
        decreases 32 - i,
    {
        out[i] = s[off + i];
        i = i + 1;
    }
    assert(out@ =~= s@.subrange(off as int, off + 32));
    out
}

/// Two arrays with the same view are equal.
pub proof fn lemma_array16_view_eq(a: [u8; 16], b: [u8; 16])
    requires
        a@ == b@,
    ensures
        a == b,
{
    assert(a =~= b) by {
        assert forall|i: int| 0 <= i < 16 implies a[i] == b[i] by {
            assert(a@[i] == b@[i]);
        }
    }
}

/// Two arrays with the same view are equal.
pub proof fn lemma_array32_view_eq(a: [u8; 32], b: [u8; 32])
    requires
        a@ == b@,
    ensures
        a == b,
{
    assert(a =~= b) by {
        assert forall|i: int| 0 <= i < 32 implies a[i] == b[i] by {
            assert(a@[i] == b@[i]);
        }
    }
}

pub proof fn lemma_choose16(s: Seq<u8>, a: [u8; 16])
    requires
        a@ == s,
    ensures
        array16_of(s) == a,
{
    let c = array16_of(s);
    lemma_array16_view_eq(c, a);
}

pub proof fn lemma_choose32(s: Seq<u8>, a: [u8; 32])
    requires
        a@ == s,
    ensures
        array32_of(s) == a,
{
    let c = array32_of(s);
    lemma_array32_view_eq(c, a);
}

/// The pieces of an encoding, read back at their offsets.
proof fn lemma_encode_pieces(e: Event)
    ensures
        spec_encode(e).len() == 128,
        spec_encode(e)[0] == e.version,
        spec_encode(e)[1] == e.flags,
        spec_encode(e).subrange(2, 4) == spec_u16_to_le_bytes(e.kind),
        spec_encode(e).subrange(4, 8) == spec_u32_to_le_bytes(e.content_len),
        spec_encode(e).subrange(8, 24) == e.padding@,
        spec_encode(e).subrange(24, 32) == spec_u64_to_le_bytes(e.timestamp),
        spec_encode(e).subrange(32, 64) == e.author.bytes@,
        spec_encode(e).subrange(64, 80) == e.parent_prev.bytes@,
        spec_encode(e).subrange(80, 96) == e.parent_aux.bytes@,
        spec_encode(e).subrange(96, 128) == e.content_hash.bytes@,
{
    lemma_auto_spec_u16_to_from_le_bytes();
    lemma_auto_spec_u32_to_from_le_bytes();
    lemma_auto_spec_u64_to_from_le_bytes();
    let s = spec_encode(e);
    assert(s.subrange(2, 4) =~= spec_u16_to_le_bytes(e.kind));
    assert(s.subrange(4, 8) =~= spec_u32_to_le_bytes(e.content_len));
    assert(s.subrange(8, 24) =~= e.padding@);
    assert(s.subrange(24, 32) =~= spec_u64_to_le_bytes(e.timestamp));
    assert(s.subrange(32, 64) =~= e.author.bytes@);
    assert(s.subrange(64, 80) =~= e.parent_prev.bytes@);
    assert(s.subrange(80, 96) =~= e.parent_aux.bytes@);
    assert(s.subrange(96, 128) =~= e.content_hash.bytes@);
}

/// Decoding an encoding gives the event back.
pub proof fn lemma_decode_encode(e: Event)
    ensures
        spec_decode(spec_encode(e)) == Some(e),
{
    lemma_encode_pieces(e);
    lemma_auto_spec_u16_to_from_le_bytes();
    lemma_auto_spec_u32_to_from_le_bytes();
    lemma_auto_spec_u64_to_from_le_bytes();
    let s = spec_encode(e);
    lemma_choose16(s.subrange(8, 24), e.padding);
    lemma_choose32(s.subrange(32, 64), e.author.bytes);
    lemma_choose16(s.subrange(64, 80), e.parent_prev.bytes);
    lemma_choose16(s.subrange(80, 96), e.parent_aux.bytes);
    lemma_choose32(s.subrange(96, 128), e.content_hash.bytes);
}

impl Event {
    /// The canonical encoding.
    pub fn encode(&self) -> (r: Vec<u8>)
        ensures
            r@ == spec_encode(*self),
    {
        let mut v: Vec<u8> = Vec::new();
        v.push(self.version);
        v.push(self.flags);
        let k = u16_to_le_bytes(self.kind);
        push_bytes(&mut v, k.as_slice());
        let l = u32_to_le_bytes(self.content_len);
        push_bytes(&mut v, l.as_slice());
        push_bytes(&mut v, &self.padding);
        let t = u64_to_le_bytes(self.timestamp);
        push_bytes(&mut v, t.as_slice());
        push_bytes(&mut v, &self.author.bytes);
        push_bytes(&mut v, &self.parent_prev.bytes);
        push_bytes(&mut v, &self.parent_aux.bytes);
        push_bytes(&mut v, &self.content_hash.bytes);
        assert(v@ =~= spec_encode(*self));
        v
    }

    /// Reads an event from exactly 128 bytes of its canonical encoding.
    pub fn decode(b: &[u8]) -> (r: Option<Event>)
        ensures
            r == spec_decode(b@),
    {
        if b.len() != EVENT_ENCODED_LEN {
            return None;
        }
        let kind = u16_from_le_bytes(vstd::slice::slice_subrange(b, 2, 4));
        let content_len = u32_from_le_bytes(vstd::slice::slice_subrange(b, 4, 8));
        let timestamp = u64_from_le_bytes(vstd::slice::slice_subrange(b, 24, 32));
        let padding = read16(b, 8);
        let author = read32(b, 32);
        let parent_prev = read16(b, 64);
        let parent_aux = read16(b, 80);
        let content_hash = read32(b, 96);
        proof {
            lemma_choose16(b@.subrange(8, 24), padding);
            lemma_choose32(b@.subrange(32, 64), author);
            lemma_choose16(b@.subrange(64, 80), parent_prev);
            lemma_choose16(b@.subrange(80, 96), parent_aux);
            lemma_choose32(b@.subrange(96, 128), content_hash);
        }
        Some(
            Event {
                version: b[0],
                flags: b[1],
                kind,
                content_len,
                padding,
                timestamp,
                author: RostraId { bytes: author },
                parent_prev: ShortEventId { bytes: parent_prev },
                parent_aux: ShortEventId { bytes: parent_aux },
                content_hash: ContentHash { bytes: content_hash },
            },
        )
    }
}

impl Event {
    /// Builds a new event over `content`. `delete` names the event whose
    /// content this one deletes; it takes the place of `parent_aux`, so the
    /// two cannot both be given. Missing parents are zero.
    pub fn new(
        author: RostraId,
        delete: Option<ShortEventId>,
        kind: u16,
        parent_prev: Option<ShortEventId>,
        parent_aux: Option<ShortEventId>,
        timestamp: u64,
        content: &EventContent,
    ) -> (r: Event)
        requires
            !(delete is Some && parent_aux is Some),
            content.bytes@.len() <= u32::MAX,
        ensures
            r.version == 0,
            r.flags == (if delete is Some { FLAG_DELETE } else { 0 }),
            r.kind == kind,
            r.content_len == content.bytes@.len(),
            forall|i: int| 0 <= i < 16 ==> r.padding@[i] == 0,
            r.timestamp == timestamp,
            r.author == author,
            match parent_prev {
                Some(p) => r.parent_prev == p,
                None => r.parent_prev.spec_is_zero(),
            },
            match (parent_aux, delete) {
                (Some(p), _) => r.parent_aux == p,
                (None, Some(d)) => r.parent_aux == d,
                (None, None) => r.parent_aux.spec_is_zero(),
            },
            r.content_hash.bytes@ == blake3_of(content.bytes@),
    {
        let flags: u8 = if delete.is_some() {
            FLAG_DELETE
        } else {
            0
        };
        let prev = match parent_prev {
            Some(p) => p,
            None => ShortEventId::zero(),
        };
        let aux = match parent_aux {
            Some(p) => p,
            None => match delete {
                Some(d) => d,
                None => ShortEventId::zero(),
            },
        };
        Event {
            version: 0,
            flags,
            kind,
            content_len: content.bytes.len() as u32,
            padding: [0u8; 16],
            timestamp,
            author,
            parent_prev: prev,
            parent_aux: aux,
            content_hash: content.compute_content_hash(),
        }
    }

    /// The id of the event: the BLAKE3 digest of its encoding.
    pub fn compute_id(&self) -> (r: EventId)
        ensures
            r.bytes@ == event_id_of(*self),
    {
        let encoded = self.encode();
        EventId { bytes: blake3_hash(encoded.as_slice()) }
    }

    /// The short id of the event: the first 16 bytes of its id.
    pub fn compute_short_id(&self) -> (r: ShortEventId)
        ensures
            r.bytes@ == short_id_of(*self),
    {
        self.compute_id().to_short()
    }
}

impl SignedEvent {
    pub fn compute_id(&self) -> (r: EventId)
        ensures
            r.bytes@ == event_id_of(self.event),
    {
        self.event.compute_id()
    }

    pub fn compute_short_id(&self) -> (r: ShortEventId)
        ensures
            r.bytes@ == short_id_of(self.event),
    {
        self.event.compute_id().to_short()
    }
}

/// Why content could not be read as a payload.
#[derive(Clone, Copy, Debug, PartialEq, Eq)]
pub enum ContentDecodeError {
    /// The bytes end before the payload does.
    UnexpectedEnd,
}

/// A payload that the content of some kinds of events holds.
pub trait ContentPayload: Sized {
    /// What the payload read from `b` is, if `b` holds one.
    spec fn spec_from_bytes(b: Seq<u8>) -> Option<Self>;

    fn from_bytes(b: &[u8]) -> (r: Option<Self>)
        ensures
            r == Self::spec_from_bytes(b@),
    ;
}

/// Content of a follow event: the followee and the persona of the follow.
#[derive(Clone, Copy, Debug, PartialEq, Eq)]
pub struct Follow {
    pub followee: RostraId,
    pub persona: PersonaId,
}

/// Content of an unfollow event: the followee.
#[derive(Clone, Copy, Debug, PartialEq, Eq)]
pub struct Unfollow {
    pub followee: RostraId,
}

impl ContentPayload for Follow {
    /// 32 bytes of the followee, then one byte of persona; bytes after
    /// those are not read.
    open spec fn spec_from_bytes(b: Seq<u8>) -> Option<Follow> {
        if b.len() >= 33 {
            Some(
                Follow {
                    followee: RostraId { bytes: array32_of(b.subrange(0, 32)) },
                    persona: PersonaId { id: b[32] },
                },
            )
        } else {
            None
        }
    }

    fn from_bytes(b: &[u8]) -> (r: Option<Follow>) {
        if b.len() < 33 {
            return None;
        }
        let followee = read32(b, 0);
        proof {
            lemma_choose32(b@.subrange(0, 32), followee);
        }
        Some(Follow { followee: RostraId { bytes: followee }, persona: PersonaId { id: b[32] } })
    }
}

impl ContentPayload for Unfollow {
    /// 32 bytes of the followee; bytes after those are not read.
    open spec fn spec_from_bytes(b: Seq<u8>) -> Option<Unfollow> {
        if b.len() >= 32 {
            Some(Unfollow { followee: RostraId { bytes: array32_of(b.subrange(0, 32)) } })
        } else {
            None
        }
    }

    fn from_bytes(b: &[u8]) -> (r: Option<Unfollow>) {
        if b.len() < 32 {
            return None;
        }
        let followee = read32(b, 0);
        proof {
            lemma_choose32(b@.subrange(0, 32), followee);
        }
        Some(Unfollow { followee: RostraId { bytes: followee } })
    }
}

impl Follow {
    /// The content bytes of this follow.
    pub fn to_bytes(&self) -> (r: Vec<u8>)
        ensures
            Follow::spec_from_bytes(r@) == Some(*self),
    {
        let mut v: Vec<u8> = Vec::new();
        push_bytes(&mut v, &self.followee.bytes);
        v.push(self.persona.id);
        proof {
            assert(v@.subrange(0, 32) =~= self.followee.bytes@);
            lemma_choose32(v@.subrange(0, 32), self.followee.bytes);
        }
        v
    }
}

impl Unfollow {
    /// The content bytes of this unfollow.
    pub fn to_bytes(&self) -> (r: Vec<u8>)
        ensures
            Unfollow::spec_from_bytes(r@) == Some(*self),
    {
        let mut v: Vec<u8> = Vec::new();
        push_bytes(&mut v, &self.followee.bytes);
        proof {
            assert(v@.subrange(0, 32) =~= self.followee.bytes@);
            lemma_choose32(v@.subrange(0, 32), self.followee.bytes);
        }
        v
    }
}

impl EventContent {
    /// The digest of the content bytes.
    pub fn compute_content_hash(&self) -> (r: ContentHash)
        ensures
            r.bytes@ == blake3_of(self.bytes@),
    {
        ContentHash { bytes: blake3_hash(self.bytes.as_slice()) }
    }

    /// Reads the content as a payload of type `T`.
    pub fn decode<T: ContentPayload>(&self) -> (r: Result<T, ContentDecodeError>)
        ensures
            match T::spec_from_bytes(self.bytes@) {
                Some(v) => r == Ok::<T, ContentDecodeError>(v),
                None => r == Err::<T, ContentDecodeError>(ContentDecodeError::UnexpectedEnd),
            },
    {
        match T::from_bytes(self.bytes.as_slice()) {
            Some(v) => Ok(v),
            None => Err(ContentDecodeError::UnexpectedEnd),
        }
    }
}

} // verus!
