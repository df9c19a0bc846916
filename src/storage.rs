use vstd::prelude::*;

use crate::db::{
    spec_insert_content, spec_insert_event, spec_insert_follow, spec_insert_unfollow, spec_prune,
    Database, DbView, EventRecord, InsertEventOutcome, InsertOutcomeView, MAX_CONTENT_LEN,
};
use crate::event::{
    ContentPayload, EventContent, Follow, Unfollow, KIND_FOLLOW, KIND_UNFOLLOW,
};
use crate::ids::{PersonaId, RostraId, ShortEventId};
use crate::verify::{VerifiedEvent, VerifiedEventContent};

verus! {

/// What processing an event found of its content.
#[derive(Clone, Copy, Debug, PartialEq, Eq, Structural)]
pub enum ProcessEventState {
    /// The event is new and its content is not deleted.
    New,
    /// The event was stored already.
    Existing,
    /// The content is too large and is not kept.
    Pruned,
    /// The content is deleted.
    Deleted,
}

/// Whether content is wanted for an event.
#[derive(Clone, Copy, Debug, PartialEq, Eq, Structural)]
pub enum ContentWantState {
    Wants,
    /// Wanted if nothing is recorded of it yet.
    MaybeWants,
    DoesNotWant,
}

impl ProcessEventState {
    pub open spec fn spec_wants_content(self) -> ContentWantState {
        match self {
            ProcessEventState::New => ContentWantState::Wants,
            ProcessEventState::Existing => ContentWantState::MaybeWants,
            ProcessEventState::Pruned => ContentWantState::DoesNotWant,
            ProcessEventState::Deleted => ContentWantState::DoesNotWant,
        }
    }

    pub fn wants_content(self) -> (r: ContentWantState)
        ensures
            r == self.spec_wants_content(),
    {
        match self {
            ProcessEventState::New => ContentWantState::Wants,
            ProcessEventState::Existing => ContentWantState::MaybeWants,
            ProcessEventState::Pruned => ContentWantState::DoesNotWant,
            ProcessEventState::Deleted => ContentWantState::DoesNotWant,
        }
    }
}

/// What processing an event does: insert it, record it as the local
/// author's, prune content that is declared too large; and the state of its
/// content that results.
pub open spec fn spec_process_event(d: DbView, self_id: RostraId, v: VerifiedEvent) -> (
    DbView,
    InsertOutcomeView,
    ProcessEventState,
) {
    let s = v.spec_short_id();
    let e = v.spec_event();
    let (d1, o) = spec_insert_event(d, v);
    let d2 = if o is Inserted && e.author == self_id {
        DbView { self_events: d1.self_events.insert(s, ()), ..d1 }
    } else {
        d1
    };
    if MAX_CONTENT_LEN < e.content_len {
        (DbView { content: spec_prune(d2.content, s), ..d2 }, o, ProcessEventState::Pruned)
    } else {
        let st = match o {
            InsertOutcomeView::AlreadyPresent => ProcessEventState::Existing,
            InsertOutcomeView::Inserted { is_deleted, .. } => if is_deleted {
                ProcessEventState::Deleted
            } else {
                ProcessEventState::New
            },
        };
        (d2, o, st)
    }
}

/// What applying the payload of content that was just stored does: follows
/// and unfollows update the follow graph. The flag tells whether the local
/// author's follows changed.
pub open spec fn spec_apply_payload(
    d: DbView,
    self_id: RostraId,
    kind: u16,
    author: RostraId,
    timestamp: u64,
    id: ShortEventId,
    bytes: Seq<u8>,
) -> (DbView, bool) {
    if kind == KIND_FOLLOW {
        match Follow::spec_from_bytes(bytes) {
            Some(f) => {
                let (d1, u) = spec_insert_follow(d, author, timestamp, id, f);
                (d1, u && author == self_id)
            },
            None => (d, false),
        }
    } else if kind == KIND_UNFOLLOW {
        match Unfollow::spec_from_bytes(bytes) {
            Some(f) => {
                let (d1, u) = spec_insert_unfollow(d, author, timestamp, f);
                (d1, u && author == self_id)
            },
            None => (d, false),
        }
    } else {
        (d, false)
    }
}

/// What processing verified content does, and whether the local author's
/// follows changed.
pub open spec fn spec_process_content(
    d: DbView,
    self_id: RostraId,
    v: VerifiedEvent,
    bytes: Seq<u8>,
) -> (DbView, bool) {
    let e = v.spec_event();
    let (content, added) = spec_insert_content(d.content, v.spec_short_id(), bytes);
    let d1 = DbView { content, ..d };
    if added {
        spec_apply_payload(d1, self_id, e.kind, e.author, e.timestamp, v.spec_short_id(), bytes)
    } else {
        (d1, false)
    }
}

/// The front of the event database for one local author.
pub struct Storage {
    db: Database,
    self_id: RostraId,
}

impl Storage {
    pub closed spec fn wf(&self) -> bool {
        self.db.wf()
    }

    pub closed spec fn view(&self) -> DbView {
        self.db.view()
    }

    pub closed spec fn spec_self_id(&self) -> RostraId {
        self.self_id
    }

    /// A storage for the local author `self_id` over `db`.
    pub fn new(db: Database, self_id: RostraId) -> (r: Storage)
        requires
            db.wf(),
        ensures
            r.wf(),
            r.spec_self_id() == self_id,
            r.view() == db.view(),
    {
        Storage { db, self_id }
    }

    pub fn self_id(&self) -> (r: RostraId)
        ensures
            r == self.spec_self_id(),
    {
        self.self_id
    }

    pub fn has_event(&self, event_id: ShortEventId) -> (r: bool)
        requires
            self.wf(),
        ensures
            r == self.view().events.contains_key(event_id),
    {
        self.db.has_event(&event_id)
    }

    pub fn get_event(&self, event_id: ShortEventId) -> (r: Option<EventRecord>)
        requires
            self.wf(),
        ensures
            r == (if self.view().events.contains_key(event_id) {
                Some(self.view().events[event_id])
            } else {
                None
            }),
    {
        self.db.get_event(&event_id)
    }

    /// The content of an event, where it is present.
    pub fn get_event_content(&self, event_id: ShortEventId) -> (r: Option<EventContent>)
        requires
            self.wf(),
        ensures
            r is Some <==> (self.view().content.contains_key(event_id)
                && self.view().content[event_id] is Present),
            r matches Some(c) ==> self.view().content[event_id] == crate::db::ContentView::Present(c.bytes@),
    {
        self.db.get_event_content(&event_id)
    }

    /// The local author's head with the smallest id.
    pub fn get_self_current_head(&self) -> (r: Option<ShortEventId>)
        requires
            self.wf(),
        ensures
            r is None <==> !exists|h: ShortEventId|
                #[trigger] self.view().heads.contains_key(
                    crate::db::AuthorEventKey { author: self.spec_self_id(), event_id: h },
                ),
            r matches Some(h) ==> self.view().heads.contains_key(
                crate::db::AuthorEventKey { author: self.spec_self_id(), event_id: h },
            ),
            r matches Some(h) ==> forall|o: ShortEventId|
                #[trigger] self.view().heads.contains_key(
                    crate::db::AuthorEventKey { author: self.spec_self_id(), event_id: o },
                ) ==> !crate::ids::seq_lt(o.bytes@, h.bytes@),
    {
        let r = self.db.get_head(&self.self_id);
        proof {
            if let Some(h) = r {
                assert(self.view().heads.contains_key(
                    crate::db::AuthorEventKey { author: self.self_id, event_id: h },
                ));
            }
        }
        r
    }

    /// One of the local author's events, chosen by `pick`.
    pub fn get_self_random_eventid(&self, pick: u64) -> (r: Option<ShortEventId>)
        requires
            self.wf(),
        ensures
            r is None <==> self.view().self_events.is_empty(),
            r matches Some(id) ==> self.view().self_events.contains_key(id),
    {
        self.db.get_random_self_event(pick)
    }

    /// The local author's followees with the persona of each follow.
    pub fn get_self_followees(&self) -> (r: Vec<(RostraId, PersonaId)>)
        requires
            self.wf(),
        ensures
            forall|i: int|
                0 <= i < r@.len() ==> self.view().followees.contains_key(
                    crate::db::FollowKey { from: self.spec_self_id(), to: (#[trigger] r@[i]).0 },
                ) && self.view().followees[crate::db::FollowKey {
                    from: self.spec_self_id(),
                    to: r@[i].0,
                }].persona == r@[i].1,
            forall|f: RostraId|
                #[trigger] self.view().followees.contains_key(
                    crate::db::FollowKey { from: self.spec_self_id(), to: f },
                ) ==> exists|i: int| 0 <= i < r@.len() && #[trigger] r@[i].0 == f,
            forall|i: int, j: int| 0 <= i < j < r@.len() ==> (#[trigger] r@[i]).0 != (#[trigger] r@[j]).0,
    {
        let all = self.db.read_followees(&self.self_id);
        let mut out: Vec<(RostraId, PersonaId)> = Vec::new();
        let mut i: usize = 0;
        while i < all.len()
            invariant
                i <= all@.len(),
                out@.len() == i,
                forall|j: int|
                    0 <= j < i ==> (#[trigger] out@[j]).0 == all@[j].0 && out@[j].1
                        == all@[j].1.persona,
            decreases all@.len() - i,
        {
            out.push((all[i].0, all[i].1.persona));
            i = i + 1;
        }
        proof {
            assert forall|f: RostraId|
                #[trigger] self.view().followees.contains_key(
                    crate::db::FollowKey { from: self.spec_self_id(), to: f },
                ) implies exists|i: int| 0 <= i < out@.len() && #[trigger] out@[i].0 == f by {
                let k = choose|k: int| 0 <= k < all@.len() && #[trigger] all@[k].0 == f;
                assert(out@[k].0 == f);
            }
            assert forall|i: int, j: int| 0 <= i < j < out@.len() implies (#[trigger] out@[i]).0
                != (#[trigger] out@[j]).0 by {
                assert(all@[i].0 == out@[i].0 && all@[j].0 == out@[j].0);
            }
            assert forall|i: int| 0 <= i < out@.len() implies self.view().followees.contains_key(
                crate::db::FollowKey { from: self.spec_self_id(), to: (#[trigger] out@[i]).0 },
            ) by {
                assert(all@[i].0 == out@[i].0);
            }
        }
        out
    }

    /// Processes a verified event: inserts it, records it as the local
    /// author's where it is, and prunes its content where the declared
    /// length is over the limit.
    pub fn process_event(&mut self, event: &VerifiedEvent) -> (r: (InsertEventOutcome, ProcessEventState))
        requires
            old(self).wf(),
        ensures
            final(self).wf(),
            final(self).spec_self_id() == old(self).spec_self_id(),
            (final(self).view(), r.0@, r.1) == spec_process_event(
                old(self).view(),
                old(self).spec_self_id(),
                *event,
            ),
    {
        let outcome = self.db.insert_event_tx(event);
        let s = event.short_id();
        let e = event.event();
        match outcome {
            InsertEventOutcome::Inserted { .. } => {
                if e.author.same(&self.self_id) {
                    self.db.insert_self_event_id(s);
                }
            },
            InsertEventOutcome::AlreadyPresent => {},
        }
        let state = if MAX_CONTENT_LEN < e.content_len {
            self.db.prune_event_content_tx(s);
            ProcessEventState::Pruned
        } else {
            match &outcome {
                InsertEventOutcome::AlreadyPresent => ProcessEventState::Existing,
                InsertEventOutcome::Inserted { is_deleted, .. } => {
                    if *is_deleted {
                        ProcessEventState::Deleted
                    } else {
                        ProcessEventState::New
                    }
                },
            }
        };
        (outcome, state)
    }

    /// The head to announce after `event` was processed with `outcome`: the
    /// event itself where it is the local author's, newly inserted, and no
    /// stored event named it as a parent.
    pub fn new_self_head(&self, event: &VerifiedEvent, outcome: &InsertEventOutcome) -> (r: Option<
        ShortEventId,
    >)
        ensures
            r is Some <==> (event.spec_event().author == self.spec_self_id() && outcome@ is Inserted
                && !outcome@->Inserted_was_missing),
            r matches Some(h) ==> h == event.spec_short_id(),
    {
        match outcome {
            InsertEventOutcome::Inserted { was_missing, .. } => {
                if !*was_missing && event.event().author.same(&self.self_id) {
                    Some(event.short_id())
                } else {
                    None
                }
            },
            InsertEventOutcome::AlreadyPresent => None,
        }
    }

    fn apply_payload(
        &mut self,
        kind: u16,
        author: RostraId,
        timestamp: u64,
        id: ShortEventId,
        content: &EventContent,
    ) -> (r: bool)
        requires
            old(self).wf(),
        ensures
            final(self).wf(),
            final(self).spec_self_id() == old(self).spec_self_id(),
            (final(self).view(), r) == spec_apply_payload(
                old(self).view(),
                old(self).spec_self_id(),
                kind,
                author,
                timestamp,
                id,
                content.bytes@,
            ),
    {
        let updated = if kind == KIND_FOLLOW {
            match content.decode::<Follow>() {
                Ok(f) => self.db.insert_follow_tx(author, timestamp, id, f),
                Err(_) => false,
            }
        } else if kind == KIND_UNFOLLOW {
            match content.decode::<Unfollow>() {
                Ok(u) => self.db.insert_unfollow_tx(author, timestamp, u),
                Err(_) => false,
            }
        } else {
            false
        };
        updated && author.same(&self.self_id)
    }

    /// Processes verified content of a stored event: stores it where
    /// nothing was recorded of it, and then applies a follow or unfollow
    /// that it holds. Returns whether the local author's follows changed.
    pub fn process_event_content(&mut self, content: &VerifiedEventContent) -> (r: bool)
        requires
            old(self).wf(),
            old(self).view().events.contains_key(content.spec_event().spec_short_id()),
        ensures
            final(self).wf(),
            final(self).spec_self_id() == old(self).spec_self_id(),
            (final(self).view(), r) == spec_process_content(
                old(self).view(),
                old(self).spec_self_id(),
                content.spec_event(),
                content.spec_content(),
            ),
    {
        let v = content.event();
        let id = v.short_id();
        let added = self.db.insert_event_content_tx(id, content.content());
        if added {
            let e = v.event();
            self.apply_payload(e.kind, e.author, e.timestamp, id, content.content())
        } else {
            false
        }
    }

    /// Processes an event and then its content.
    pub fn process_event_with_content(
        &mut self,
        event: &VerifiedEvent,
        content: &VerifiedEventContent,
    ) -> (r: (InsertEventOutcome, ProcessEventState))
        requires
            old(self).wf(),
            content.spec_event().spec_short_id() == event.spec_short_id(),
        ensures
            final(self).wf(),
            ({
                let (d1, o, st) = spec_process_event(old(self).view(), old(self).spec_self_id(), *event);
                r.0@ == o && r.1 == st && final(self).view() == spec_process_content(
                    d1,
                    old(self).spec_self_id(),
                    content.spec_event(),
                    content.spec_content(),
                ).0
            }),
    {
        let r = self.process_event(event);
        self.process_event_content(content);
        r
    }

    /// Whether to fetch the content of `event_id`, which was processed with
    /// `process_state`: always for a new event, never for pruned or deleted
    /// content, and for an existing one where nothing is recorded of it.
    pub fn wants_content(&self, event_id: ShortEventId, process_state: ProcessEventState) -> (r: bool)
        requires
            self.wf(),
        ensures
            r == match process_state.spec_wants_content() {
                ContentWantState::Wants => true,
                ContentWantState::DoesNotWant => false,
                ContentWantState::MaybeWants => !self.view().content.contains_key(event_id),
            },
    {
        match process_state.wants_content() {
            ContentWantState::DoesNotWant => false,
            ContentWantState::Wants => true,
            ContentWantState::MaybeWants => !self.db.has_event_content(&event_id),
        }
    }

    /// The database behind this storage.
    pub fn db(&self) -> (r: &Database)
        ensures
            r.wf() == self.wf(),
            r.view() == self.view(),
    {
        &self.db
    }
}

} // verus!
