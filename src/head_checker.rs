use vstd::prelude::*;

use crate::db::{InsertEventOutcome, InsertOutcomeView};
use crate::event::{short_id_of, EventContent, SignedEvent};
use crate::ids::{RostraId, ShortEventId};
use crate::storage::{spec_process_content, spec_process_event, ContentWantState, Storage};
use crate::verify::{ContentVerifyError, EventVerifyError, VerifiedEvent, VerifiedEventContent};

verus! {

/// The head a followee announced that is worth a walk: one that is not
/// stored locally.
pub fn check_for_new_head(storage: &Storage, head: Option<ShortEventId>) -> (r: Option<ShortEventId>)
    requires
        storage.wf(),
    ensures
        r == (match head {
            Some(h) => if storage.view().events.contains_key(h) {
                None
            } else {
                Some(h)
            },
            None => None,
        }),
{
    match head {
        Some(h) => if storage.has_event(h) {
            None
        } else {
            Some(h)
        },
        None => None,
    }
}

/// The depth one below `d`, held at the largest `u64`.
pub open spec fn next_depth(d: u64) -> u64 {
    if d == u64::MAX {
        d
    } else {
        (d + 1) as u64
    }
}

/// A walk over the events of one followee, from a head towards its
/// ancestors: events are visited in order of depth, nearest first.
pub struct HeadWalk {
    author: RostraId,
    queue: Vec<(u64, ShortEventId)>,
    next: usize,
    last: u64,
}

impl HeadWalk {
    pub closed spec fn spec_author(&self) -> RostraId {
        self.author
    }

    /// The events still to visit, with their depths, in visiting order.
    pub closed spec fn pending(&self) -> Seq<(u64, ShortEventId)> {
        self.queue@.subrange(self.next as int, self.queue@.len() as int)
    }

    /// The depth of the event visited last.
    pub closed spec fn last_depth(&self) -> u64 {
        self.last
    }

    /// Pending depths never decrease, and lie between the last visited
    /// depth and the one below it.
    pub closed spec fn wf(&self) -> bool {
        &&& self.next <= self.queue@.len()
        &&& forall|i: int, j: int|
            self.next <= i <= j < self.queue@.len() ==> (#[trigger] self.queue@[i]).0
                <= (#[trigger] self.queue@[j]).0
        &&& forall|i: int|
            self.next <= i < self.queue@.len() ==> self.last <= (#[trigger] self.queue@[i]).0
                <= next_depth(self.last)
    }

    /// A walk of `author`'s events from `head`, at depth 0.
    pub fn new(author: RostraId, head: ShortEventId) -> (r: HeadWalk)
        ensures
            r.wf(),
            r.spec_author() == author,
            r.pending() == seq![(0u64, head)],
            r.last_depth() == 0,
    {
        let mut queue: Vec<(u64, ShortEventId)> = Vec::new();
        queue.push((0, head));
        let r = HeadWalk { author, queue, next: 0, last: 0 };
        assert(r.pending() =~= seq![(0u64, head)]);
        r
    }

    pub fn author(&self) -> (r: RostraId)
        ensures
            r == self.spec_author(),
    {
        self.author
    }

    /// Takes the next event to visit: the first pending one, whose depth is
    /// the smallest.
    pub fn pop(&mut self) -> (r: Option<(u64, ShortEventId)>)
        requires
            old(self).wf(),
        ensures
            final(self).wf(),
            final(self).spec_author() == old(self).spec_author(),
            old(self).pending().len() == 0 ==> r is None && final(self).pending() == old(self).pending()
                && final(self).last_depth() == old(self).last_depth(),
            old(self).pending().len() > 0 ==> r == Some(old(self).pending()[0]) && final(self).pending()
                == old(self).pending().drop_first() && final(self).last_depth() == r.unwrap().0,
            old(self).pending().len() > 0 ==> forall|i: int|
                0 <= i < old(self).pending().len() ==> r.unwrap().0 <= (#[trigger] old(self).pending()[i]).0,
    {
        if self.next >= self.queue.len() {
            return None;
        }
        let item = self.queue[self.next];
        self.next = self.next + 1;
        self.last = item.0;
        proof {
            assert(self.pending() =~= old(self).pending().drop_first());
            assert forall|i: int| 0 <= i < old(self).pending().len() implies item.0 <= (#[trigger] old(self).pending()[i]).0 by {
                assert(old(self).pending()[i] == old(self).queue@[old(self).next + i]);
            }
        }
        Some(item)
    }

    /// Adds parents found at the depth visited last, one level below it.
    pub fn push_parents(&mut self, parents: &Vec<ShortEventId>)
        requires
            old(self).wf(),
        ensures
            final(self).wf(),
            final(self).spec_author() == old(self).spec_author(),
            final(self).last_depth() == old(self).last_depth(),
            final(self).pending() == old(self).pending() + parents@.map_values(
                |p: ShortEventId| (next_depth(old(self).last_depth()), p),
            ),
    {
        let d: u64 = if self.last == u64::MAX {
            self.last
        } else {
            self.last + 1
        };
        let mut i: usize = 0;
        while i < parents.len()
            invariant
                self.wf(),
                self.author == old(self).author,
                self.last == old(self).last,
                self.next == old(self).next,
                d == next_depth(self.last),
                i <= parents@.len(),
                self.pending() == old(self).pending() + parents@.subrange(0, i as int).map_values(
                    |p: ShortEventId| (d, p),
                ),
            decreases parents@.len() - i,
        {
            let ghost before = self.pending();
            self.queue.push((d, parents[i]));
            i = i + 1;
            proof {
                assert(parents@.subrange(0, i as int).map_values(|p: ShortEventId| (d, p))
                    =~= parents@.subrange(0, i - 1).map_values(|p: ShortEventId| (d, p)).push(
                    (d, parents@[i - 1]),
                ));
                assert(self.pending() =~= before.push((d, parents@[i - 1])));
            }
        }
        assert(parents@.subrange(0, parents@.len() as int) =~= parents@);
    }
}

/// What the walk does with the response of a peer for the event `id`,
/// taken from the walk last: a missing event is passed over; an event
/// that fails verification stops the walk with its error; an accepted
/// event is processed and its parents that became missing are queued.
/// Returns the event where its content is to be fetched next.
pub fn on_event_response(
    storage: &mut Storage,
    walk: &mut HeadWalk,
    id: ShortEventId,
    response: Option<SignedEvent>,
) -> (r: Result<Option<VerifiedEvent>, EventVerifyError>)
    requires
        old(storage).wf(),
        old(walk).wf(),
    ensures
        final(storage).wf(),
        final(walk).wf(),
        final(storage).spec_self_id() == old(storage).spec_self_id(),
        final(walk).spec_author() == old(walk).spec_author(),
        final(walk).last_depth() == old(walk).last_depth(),
        response is None ==> r == Ok::<Option<VerifiedEvent>, EventVerifyError>(None) && final(storage).view() == old(storage).view() && final(walk).pending() == old(walk).pending(),
        r is Err ==> final(storage).view() == old(storage).view() && final(walk).pending() == old(walk).pending(),
        response matches Some(se) ==> (r is Ok <==> (se.event.author == old(walk).spec_author()
            && short_id_of(se.event) == id.bytes@ && crate::crypto::signature_accepted(
            se.event.author.bytes@,
            crate::event::spec_encode(se.event),
            se.sig.bytes@,
        ))),
        r matches Ok(Some(v)) ==> v.spec_event() == response->0.event && v.spec_sig()
            == response->0.sig,
        response is Some && r is Ok ==> ({
            let v = VerifiedEvent::spec_of(response->0);
            let (d1, o, st) = spec_process_event(
                old(storage).view(),
                old(storage).spec_self_id(),
                v,
            );
            &&& final(storage).view() == d1
            &&& final(walk).pending() == old(walk).pending() + (match o {
                InsertOutcomeView::Inserted { missing_parents, .. } => missing_parents,
                InsertOutcomeView::AlreadyPresent => Seq::<ShortEventId>::empty(),
            }).map_values(|p: ShortEventId| (next_depth(old(walk).last_depth()), p))
            &&& (r->Ok_0 is Some <==> match st.spec_wants_content() {
                ContentWantState::Wants => true,
                ContentWantState::DoesNotWant => false,
                ContentWantState::MaybeWants => !d1.content.contains_key(v.spec_short_id()),
            })
        }),
{
    let se = match response {
        Some(se) => se,
        None => return Ok(None),
    };
    let v = match VerifiedEvent::verify_response(walk.author(), id, se.event, se.sig) {
        Ok(v) => v,
        Err(e) => return Err(e),
    };
    let (outcome, state) = storage.process_event(&v);
    match &outcome {
        InsertEventOutcome::Inserted { missing_parents, .. } => walk.push_parents(missing_parents),
        InsertEventOutcome::AlreadyPresent => {
            let empty: Vec<ShortEventId> = Vec::new();
            walk.push_parents(&empty);
            assert(empty@.map_values(|p: ShortEventId| (next_depth(old(walk).last_depth()), p))
                =~= Seq::<ShortEventId>::empty().map_values(
                |p: ShortEventId| (next_depth(old(walk).last_depth()), p),
            ));
        },
    }
    if storage.wants_content(v.short_id(), state) {
        Ok(Some(v))
    } else {
        Ok(None)
    }
}

/// What the walk does with content a peer sent for an event it accepted:
/// nothing where the peer had none; otherwise the content is verified and
/// processed. Returns whether the local author's follows changed.
pub fn on_content_response(
    storage: &mut Storage,
    event: VerifiedEvent,
    response: Option<Vec<u8>>,
) -> (r: Result<bool, ContentVerifyError>)
    requires
        old(storage).wf(),
        old(storage).view().events.contains_key(event.spec_short_id()),
    ensures
        final(storage).wf(),
        final(storage).spec_self_id() == old(storage).spec_self_id(),
        response is None ==> r == Ok::<bool, ContentVerifyError>(false) && final(storage).view()
            == old(storage).view(),
        response matches Some(b) ==> (r is Ok <==> (b@.len() == event.spec_event().content_len as nat
            && crate::crypto::blake3_of(b@) == event.spec_event().content_hash.bytes@)),
        r is Err ==> final(storage).view() == old(storage).view(),
        response is Some && r is Ok ==> (final(storage).view(), r->Ok_0) == spec_process_content(
            old(storage).view(),
            old(storage).spec_self_id(),
            event,
            response->0@,
        ),
{
    let bytes = match response {
        Some(b) => b,
        None => return Ok(false),
    };
    let c = match VerifiedEventContent::verify(event, EventContent { bytes }) {
        Ok(c) => c,
        Err(e) => return Err(e),
    };
    Ok(storage.process_event_content(&c))
}

} // verus!
