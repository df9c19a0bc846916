use vstd::prelude::*;

verus! {

broadcast use vstd::array::group_array_axioms;

/// Public key of an author: 32 bytes.
#[derive(Clone, Copy, Debug, PartialEq, Eq, Hash)]
pub struct RostraId {
    pub bytes: [u8; 32],
}

/// BLAKE3 digest of the canonical encoding of an event.
#[derive(Clone, Copy, Debug, PartialEq, Eq, Hash)]
pub struct EventId {
    pub bytes: [u8; 32],
}

/// The first 16 bytes of an `EventId`; how events refer to each other.
#[derive(Clone, Copy, Debug, PartialEq, Eq, Hash)]
pub struct ShortEventId {
    pub bytes: [u8; 16],
}

/// BLAKE3 digest of event content bytes.
#[derive(Clone, Copy, Debug, PartialEq, Eq, Hash)]
pub struct ContentHash {
    pub bytes: [u8; 32],
}

/// Tag that groups an author's follows.
#[derive(Clone, Copy, Debug, PartialEq, Eq, Hash)]
pub struct PersonaId {
    pub id: u8,
}

/// Compares two byte arrays.
pub fn bytes_eq<const N: usize>(a: &[u8; N], b: &[u8; N]) -> (r: bool)
    ensures
        r == (*a == *b),
{
    let mut i: usize = 0;
    while i < N
        invariant
            i <= N,
            a@.len() == N,
            b@.len() == N,
            forall|j: int| 0 <= j < i ==> a@[j] == b@[j],
        decreases N - i,
    {
        if a[i] != b[i] {
            return false;
        }
        i = i + 1;
    }
    assert(*a =~= *b);
    true
}

/// Lexicographic order on byte sequences of equal length.
pub open spec fn seq_lt(a: Seq<u8>, b: Seq<u8>) -> bool {
    exists|i: int|
        0 <= i < a.len() && i < b.len() && a[i] < b[i] && forall|j: int| 0 <= j < i ==> a[j] == b[j]
}

/// Lexicographic comparison of two byte arrays.
pub fn bytes_lt<const N: usize>(a: &[u8; N], b: &[u8; N]) -> (r: bool)
    ensures
        r == seq_lt(a@, b@),
{
    let mut i: usize = 0;
    while i < N
        invariant
            i <= N,
            a@.len() == N,
            b@.len() == N,
            forall|j: int| 0 <= j < i ==> a@[j] == b@[j],
        decreases N - i,
    {
        if a[i] != b[i] {
            let lt = a[i] < b[i];
            if !lt {
                assert forall|k: int|
                    0 <= k < a@.len() && k < b@.len() && a@[k] < b@[k] implies exists|j: int|
                    0 <= j < k && a@[j] != b@[j] by {
                    if k < i {
                    } else if k == i as int {
                    } else {
                        assert(a@[i as int] != b@[i as int]);
                    }
                }
            } else {
                assert(forall|j: int| 0 <= j < i ==> a@[j] == b@[j]);
                assert(a@[i as int] < b@[i as int]);
            }
            return lt;
        }
        i = i + 1;
    }
    assert forall|k: int|
        0 <= k < a@.len() && k < b@.len() implies !(a@[k] < b@[k]) by {}
    false
}

impl ShortEventId {
    /// The all-zero id stands for "no parent".
    pub open spec fn spec_is_zero(self) -> bool {
        forall|i: int| 0 <= i < 16 ==> self.bytes@[i] == 0
    }

    pub fn zero() -> (r: ShortEventId)
        ensures
            r.spec_is_zero(),
    {
        ShortEventId { bytes: [0u8; 16] }
    }

    pub fn is_zero(&self) -> (r: bool)
        ensures
            r == self.spec_is_zero(),
    {
        let mut i: usize = 0;
        while i < 16
            invariant
                i <= 16,
                forall|j: int| 0 <= j < i ==> self.bytes@[j] == 0,
            decreases 16 - i,
        {
            if self.bytes[i] != 0 {
                return false;
            }
            i = i + 1;
        }
        true
    }

    pub fn same(&self, other: &ShortEventId) -> (r: bool)
        ensures
            r == (*self == *other),
    {
        bytes_eq(&self.bytes, &other.bytes)
    }

    pub fn less_than(&self, other: &ShortEventId) -> (r: bool)
        ensures
            r == seq_lt(self.bytes@, other.bytes@),
    {
        bytes_lt(&self.bytes, &other.bytes)
    }
}

impl RostraId {
    pub fn same(&self, other: &RostraId) -> (r: bool)
        ensures
            r == (*self == *other),
    {
        bytes_eq(&self.bytes, &other.bytes)
    }
}

impl EventId {
    pub fn to_short(&self) -> (r: ShortEventId)
        ensures
            r.bytes@ == self.bytes@.subrange(0, 16),
    {
        let mut out = [0u8; 16];
        let mut i: usize = 0;
        while i < 16
            invariant
                i <= 16,
                out@.len() == 16,
                forall|j: int| 0 <= j < i ==> out@[j] == self.bytes@[j],
            decreases 16 - i,
        {
            out[i] = self.bytes[i];
            i = i + 1;
        }
        assert(out@ =~= self.bytes@.subrange(0, 16));
        ShortEventId { bytes: out }
    }
}

impl ContentHash {
    pub fn same(&self, other: &ContentHash) -> (r: bool)
        ensures
            r == (*self == *other),
    {
        bytes_eq(&self.bytes, &other.bytes)
    }
}

/// No sequence is below itself.
pub proof fn lemma_seq_lt_irreflexive(a: Seq<u8>)
    ensures
        !seq_lt(a, a),
{
}

/// Where `a` is not below `b` and `c` is below `b`, `a` is not below `c`.
pub proof fn lemma_seq_lt_trans_not(a: Seq<u8>, b: Seq<u8>, c: Seq<u8>)
    requires
        !seq_lt(a, b),
        seq_lt(c, b),
        a.len() == b.len(),
        b.len() == c.len(),
    ensures
        !seq_lt(a, c),
{
    if seq_lt(a, c) {
        let i = choose|i: int|
            0 <= i < a.len() && i < c.len() && a[i] < c[i] && forall|j: int| 0 <= j < i ==> a[j] == c[j];
        let k = choose|k: int|
            0 <= k < c.len() && k < b.len() && c[k] < b[k] && forall|j: int| 0 <= j < k ==> c[j] == b[j];
        let m = if i < k { i } else { k };
        assert(a[m] < b[m]);
        assert forall|j: int| 0 <= j < m implies a[j] == b[j] by {
            assert(a[j] == c[j]);
            assert(c[j] == b[j]);
        }
    }
}

} // verus!
