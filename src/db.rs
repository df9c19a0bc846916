use vstd::prelude::*;

use crate::event::{EventContent, SignedEvent};
use crate::ids::{PersonaId, RostraId, ShortEventId};
use crate::table::{Table, TableKey};
use crate::verify::VerifiedEvent;

verus! {

/// Content longer than this is pruned rather than stored.
pub const MAX_CONTENT_LEN: u32 = 1_000_000;

/// Key of the tables that are scoped by author: heads and missing parents.
#[derive(Clone, Copy, Debug, PartialEq, Eq)]
pub struct AuthorEventKey {
    pub author: RostraId,
    pub event_id: ShortEventId,
}

/// Key of the time index.
#[derive(Clone, Copy, Debug, PartialEq, Eq)]
pub struct TimeEventKey {
    pub timestamp: u64,
    pub event_id: ShortEventId,
}

/// Key of the follow tables: `(follower, followee)` in the followees table,
/// `(followee, follower)` in the followers table.
#[derive(Clone, Copy, Debug, PartialEq, Eq)]
pub struct FollowKey {
    pub from: RostraId,
    pub to: RostraId,
}

/// Key of the unfollow tombstones.
#[derive(Clone, Copy, Debug, PartialEq, Eq)]
pub struct UnfollowKey {
    pub follower: RostraId,
    pub followee: RostraId,
    pub timestamp: u64,
}

impl TableKey for AuthorEventKey {
    fn key_eq(&self, other: &Self) -> (r: bool) {
        self.author.same(&other.author) && self.event_id.same(&other.event_id)
    }
}

impl TableKey for TimeEventKey {
    fn key_eq(&self, other: &Self) -> (r: bool) {
        self.timestamp == other.timestamp && self.event_id.same(&other.event_id)
    }
}

impl TableKey for FollowKey {
    fn key_eq(&self, other: &Self) -> (r: bool) {
        self.from.same(&other.from) && self.to.same(&other.to)
    }
}

impl TableKey for UnfollowKey {
    fn key_eq(&self, other: &Self) -> (r: bool) {
        self.follower.same(&other.follower) && self.followee.same(&other.followee)
            && self.timestamp == other.timestamp
    }
}

/// A stored event header with its signature.
#[derive(Clone, Copy, Debug, PartialEq, Eq)]
pub struct EventRecord {
    pub signed: SignedEvent,
}

/// What is stored of an event's content.
#[derive(Clone, Debug)]
pub enum EventContentState {
    Present(EventContent),
    /// Deleted as its author asked, by the event named here.
    Deleted { deleted_by: ShortEventId },
    /// Dropped locally, as it is too large.
    Pruned,
}

/// The content state of an event, with the bytes as a sequence.
pub enum ContentView {
    Present(Seq<u8>),
    Deleted(ShortEventId),
    Pruned,
}

impl EventContentState {
    pub open spec fn view(self) -> ContentView {
        match self {
            EventContentState::Present(c) => ContentView::Present(c.bytes@),
            EventContentState::Deleted { deleted_by } => ContentView::Deleted(deleted_by),
            EventContentState::Pruned => ContentView::Pruned,
        }
    }
}

/// A parent that is referenced but not stored, and the event that asked to
/// delete it, if one did.
#[derive(Clone, Copy, Debug, PartialEq, Eq)]
pub struct EventsMissingRecord {
    pub deleted_by: Option<ShortEventId>,
}

/// Value of the heads table.
#[derive(Clone, Copy, Debug, PartialEq, Eq)]
pub struct EventsHeadsTableRecord;

/// A follow: its persona, and the time and short id of the event that made
/// it.
#[derive(Clone, Copy, Debug, PartialEq, Eq)]
pub struct IdsFolloweesRecord {
    pub persona: PersonaId,
    pub timestamp: u64,
    pub event_id: ShortEventId,
}

/// What inserting an event did.
#[derive(Clone, Debug)]
pub enum InsertEventOutcome {
    /// The event was stored already; nothing changed.
    AlreadyPresent,
    Inserted {
        /// Some stored event named it as a parent.
        was_missing: bool,
        /// Its content ends up deleted.
        is_deleted: bool,
        /// Its parents that became missing.
        missing_parents: Vec<ShortEventId>,
    },
}

pub enum InsertOutcomeView {
    AlreadyPresent,
    Inserted { was_missing: bool, is_deleted: bool, missing_parents: Seq<ShortEventId> },
}

impl View for InsertEventOutcome {
    type V = InsertOutcomeView;

    open spec fn view(&self) -> InsertOutcomeView {
        match self {
            InsertEventOutcome::AlreadyPresent => InsertOutcomeView::AlreadyPresent,
            InsertEventOutcome::Inserted { was_missing, is_deleted, missing_parents } => {
                InsertOutcomeView::Inserted {
                    was_missing: *was_missing,
                    is_deleted: *is_deleted,
                    missing_parents: missing_parents@,
                }
            },
        }
    }
}

/// The contents of every table of the database.
pub struct DbView {
    pub events: Map<ShortEventId, EventRecord>,
    pub content: Map<ShortEventId, ContentView>,
    pub by_time: Map<TimeEventKey, ()>,
    pub self_events: Map<ShortEventId, ()>,
    pub heads: Map<AuthorEventKey, EventsHeadsTableRecord>,
    pub missing: Map<AuthorEventKey, EventsMissingRecord>,
    pub followees: Map<FollowKey, IdsFolloweesRecord>,
    pub followers: Map<FollowKey, IdsFolloweesRecord>,
    pub unfollowed: Map<UnfollowKey, ()>,
}

/// The event database: typed tables over one store.
pub struct Database {
    events: Table<ShortEventId, EventRecord>,
    events_content: Table<ShortEventId, EventContentState>,
    events_by_time: Table<TimeEventKey, ()>,
    events_self: Table<ShortEventId, ()>,
    events_heads: Table<AuthorEventKey, EventsHeadsTableRecord>,
    events_missing: Table<AuthorEventKey, EventsMissingRecord>,
    ids_followees: Table<FollowKey, IdsFolloweesRecord>,
    ids_followers: Table<FollowKey, IdsFolloweesRecord>,
    ids_unfollowed: Table<UnfollowKey, ()>,
}

pub open spec fn is_tombstone(c: ContentView) -> bool {
    c is Deleted || c is Pruned
}

/// The content states after `by` deletes `id`: a tombstone stays as it is,
/// anything else becomes `Deleted`.
pub open spec fn spec_mark_deleted(
    content: Map<ShortEventId, ContentView>,
    id: ShortEventId,
    by: ShortEventId,
) -> Map<ShortEventId, ContentView> {
    if content.contains_key(id) && is_tombstone(content[id]) {
        content
    } else {
        content.insert(id, ContentView::Deleted(by))
    }
}

/// What a new event `s` of `author` does for one of its parents `p`, and
/// whether `p` became missing by it.
pub open spec fn spec_parent_step(
    d: DbView,
    author: RostraId,
    s: ShortEventId,
    p: ShortEventId,
    deleting: bool,
) -> (DbView, bool) {
    if p.spec_is_zero() {
        (d, false)
    } else {
        let k = AuthorEventKey { author, event_id: p };
        let stored = d.events.contains_key(p);
        let missing = if stored {
            d.missing
        } else if !d.missing.contains_key(k) {
            d.missing.insert(
                k,
                EventsMissingRecord {
                    deleted_by: if deleting {
                        Some(s)
                    } else {
                        None
                    },
                },
            )
        } else if deleting && d.missing[k].deleted_by is None {
            d.missing.insert(k, EventsMissingRecord { deleted_by: Some(s) })
        } else {
            d.missing
        };
        let content = if deleting && stored {
            spec_mark_deleted(d.content, p, s)
        } else {
            d.content
        };
        (
            DbView { missing, content, heads: d.heads.remove(k), ..d },
            !stored && !d.missing.contains_key(k),
        )
    }
}

/// What inserting a verified event does to the database, and its outcome.
pub open spec fn spec_insert_event(d: DbView, v: VerifiedEvent) -> (DbView, InsertOutcomeView) {
    let s = v.spec_short_id();
    let e = v.spec_event();
    if d.events.contains_key(s) {
        (d, InsertOutcomeView::AlreadyPresent)
    } else {
        let k = AuthorEventKey { author: e.author, event_id: s };
        let d1 = DbView {
            events: d.events.insert(s, EventRecord { signed: SignedEvent { event: e, sig: v.spec_sig() } }),
            by_time: d.by_time.insert(TimeEventKey { timestamp: e.timestamp, event_id: s }, ()),
            ..d
        };
        let (d2, n1) = spec_parent_step(d1, e.author, s, e.parent_prev, false);
        let (d3, n2) = spec_parent_step(d2, e.author, s, e.parent_aux, e.spec_is_delete());
        let was_missing = d3.missing.contains_key(k);
        let content = if was_missing && d3.missing[k].deleted_by is Some {
            spec_mark_deleted(d3.content, s, d3.missing[k].deleted_by.unwrap())
        } else {
            d3.content
        };
        let heads = if was_missing {
            d3.heads
        } else {
            d3.heads.insert(k, EventsHeadsTableRecord)
        };
        let d4 = DbView { missing: d3.missing.remove(k), content, heads, ..d3 };
        let missing_parents = (if n1 {
            seq![e.parent_prev]
        } else {
            seq![]
        }) + (if n2 {
            seq![e.parent_aux]
        } else {
            seq![]
        });
        (
            d4,
            InsertOutcomeView::Inserted {
                was_missing,
                is_deleted: d4.content.contains_key(s) && d4.content[s] is Deleted,
                missing_parents,
            },
        )
    }
}

/// The content states after pruning `id`: anything but a deletion becomes
/// `Pruned`.
pub open spec fn spec_prune(content: Map<ShortEventId, ContentView>, id: ShortEventId) -> Map<
    ShortEventId,
    ContentView,
> {
    if content.contains_key(id) && content[id] is Deleted {
        content
    } else {
        content.insert(id, ContentView::Pruned)
    }
}

/// The content states after content `bytes` arrives for `id`, and whether
/// it was stored: only where nothing was recorded yet, and only up to
/// `MAX_CONTENT_LEN` bytes; longer content is pruned.
pub open spec fn spec_insert_content(
    content: Map<ShortEventId, ContentView>,
    id: ShortEventId,
    bytes: Seq<u8>,
) -> (Map<ShortEventId, ContentView>, bool) {
    if content.contains_key(id) {
        (content, false)
    } else if bytes.len() <= MAX_CONTENT_LEN {
        (content.insert(id, ContentView::Present(bytes)), true)
    } else {
        (content.insert(id, ContentView::Pruned), false)
    }
}

/// The follow `rec` is older than an event at `t` with short id `id`,
/// ordered by timestamp and then by short id.
pub open spec fn follow_older(rec: IdsFolloweesRecord, t: u64, id: ShortEventId) -> bool {
    rec.timestamp < t || (rec.timestamp == t && crate::ids::seq_lt(rec.event_id.bytes@, id.bytes@))
}

/// Some unfollow of `followee` by `follower` at `t` or later is recorded.
pub open spec fn spec_has_newer_unfollow(
    d: DbView,
    follower: RostraId,
    followee: RostraId,
    t: u64,
) -> bool {
    exists|ts: u64|
        ts >= t && #[trigger] d.unfollowed.contains_key(
            UnfollowKey { follower, followee, timestamp: ts },
        )
}

/// What a follow of `f.followee` by `author` at `t` does, and whether the
/// follow graph changed: it is written unless an unfollow at `t` or later
/// is recorded, or the stored follow is not older by `(timestamp, short id)`.
pub open spec fn spec_insert_follow(
    d: DbView,
    author: RostraId,
    t: u64,
    id: ShortEventId,
    f: crate::event::Follow,
) -> (DbView, bool) {
    let fk = FollowKey { from: author, to: f.followee };
    let rk = FollowKey { from: f.followee, to: author };
    let rec = IdsFolloweesRecord { persona: f.persona, timestamp: t, event_id: id };
    if spec_has_newer_unfollow(d, author, f.followee, t) {
        (d, false)
    } else if d.followees.contains_key(fk) && !follow_older(d.followees[fk], t, id) {
        (d, false)
    } else {
        (
            DbView { followees: d.followees.insert(fk, rec), followers: d.followers.insert(rk, rec), ..d },
            true,
        )
    }
}

/// What an unfollow of `u.followee` by `author` at `t` does, and whether
/// the follow graph changed: unless an unfollow at `t` or later is
/// recorded, a follow at `t` or earlier is removed, and the unfollow is
/// recorded.
pub open spec fn spec_insert_unfollow(
    d: DbView,
    author: RostraId,
    t: u64,
    u: crate::event::Unfollow,
) -> (DbView, bool) {
    let fk = FollowKey { from: author, to: u.followee };
    let rk = FollowKey { from: u.followee, to: author };
    if spec_has_newer_unfollow(d, author, u.followee, t) {
        (d, false)
    } else {
        let remove = d.followees.contains_key(fk) && d.followees[fk].timestamp <= t;
        (
            DbView {
                followees: if remove {
                    d.followees.remove(fk)
                } else {
                    d.followees
                },
                followers: if remove {
                    d.followers.remove(rk)
                } else {
                    d.followers
                },
                unfollowed: d.unfollowed.insert(
                    UnfollowKey { follower: author, followee: u.followee, timestamp: t },
                    (),
                ),
                ..d
            },
            remove,
        )
    }
}

proof fn lemma_map_values_insert<K, A, B>(m: Map<K, A>, k: K, v: A, f: spec_fn(A) -> B)
    ensures
        m.insert(k, v).map_values(f) == m.map_values(f).insert(k, f(v)),
{
    assert(m.insert(k, v).map_values(f) =~= m.map_values(f).insert(k, f(v)));
}

/// The event ids that `t` holds under `author`.
fn ids_of_author<V>(t: &Table<AuthorEventKey, V>, author: &RostraId) -> (r: Vec<ShortEventId>)
    requires
        t.wf(),
    ensures
        forall|i: int|
            0 <= i < r@.len() ==> t@.contains_key(
                AuthorEventKey { author: *author, event_id: #[trigger] r@[i] },
            ),
        forall|h: ShortEventId|
            #[trigger] t@.contains_key(AuthorEventKey { author: *author, event_id: h }) ==> r@.contains(h),
{
    let mut out: Vec<ShortEventId> = Vec::new();
    let mut i: usize = 0;
    while i < t.len()
        invariant
            t.wf(),
            i <= t.entries@.len(),
            forall|k: int|
                0 <= k < out@.len() ==> t@.contains_key(
                    AuthorEventKey { author: *author, event_id: #[trigger] out@[k] },
                ),
            forall|j: int|
                0 <= j < i && (#[trigger] t.entries@[j]).0.author == *author ==> out@.contains(
                    t.entries@[j].0.event_id,
                ),
        decreases t.entries@.len() - i,
    {
        let e = t.entry(i);
        if e.0.author.same(author) {
            assert(e.0 == AuthorEventKey { author: *author, event_id: e.0.event_id });
            let ghost prev = out@;
            out.push(e.0.event_id);
            proof {
                assert forall|j: int|
                    0 <= j < i + 1 && (#[trigger] t.entries@[j]).0.author == *author
                        implies out@.contains(t.entries@[j].0.event_id) by {
                    if j < i {
                        let k = choose|k: int| 0 <= k < prev.len() && prev[k] == t.entries@[j].0.event_id;
                        assert(out@[k] == prev[k]);
                    } else {
                        assert(out@[out@.len() - 1] == e.0.event_id);
                    }
                }
            }
        }
        i = i + 1;
    }
    proof {
        assert forall|h: ShortEventId|
            #[trigger] t@.contains_key(AuthorEventKey { author: *author, event_id: h }) implies out@.contains(h) by {
            let key = AuthorEventKey { author: *author, event_id: h };
            let j = choose|j: int| 0 <= j < t.entries@.len() && #[trigger] t.entries@[j].0 == key;
            assert(t.entries@[j].0.author == *author);
        }
    }
    out
}

impl Database {
    pub closed spec fn wf(&self) -> bool {
        &&& self.events.wf()
        &&& self.events_content.wf()
        &&& self.events_by_time.wf()
        &&& self.events_self.wf()
        &&& self.events_heads.wf()
        &&& self.events_missing.wf()
        &&& self.ids_followees.wf()
        &&& self.ids_followers.wf()
        &&& self.ids_unfollowed.wf()
    }

    pub closed spec fn view(&self) -> DbView {
        DbView {
            events: self.events@,
            content: self.events_content@.map_values(|c: EventContentState| c.view()),
            by_time: self.events_by_time@,
            self_events: self.events_self@,
            heads: self.events_heads@,
            missing: self.events_missing@,
            followees: self.ids_followees@,
            followers: self.ids_followers@,
            unfollowed: self.ids_unfollowed@,
        }
    }

    /// An empty database.
    pub fn new() -> (r: Database)
        ensures
            r.wf(),
            r.view().events.is_empty(),
            r.view().content.is_empty(),
            r.view().by_time.is_empty(),
            r.view().self_events.is_empty(),
            r.view().heads.is_empty(),
            r.view().missing.is_empty(),
            r.view().followees.is_empty(),
            r.view().followers.is_empty(),
            r.view().unfollowed.is_empty(),
    {
        let r = Database {
            events: Table::new(),
            events_content: Table::new(),
            events_by_time: Table::new(),
            events_self: Table::new(),
            events_heads: Table::new(),
            events_missing: Table::new(),
            ids_followees: Table::new(),
            ids_followers: Table::new(),
            ids_unfollowed: Table::new(),
        };
        assert(r.view().content =~= Map::empty());
        r
    }

    /// Sets the content of `id` to `Deleted` by `by`, unless it is a
    /// tombstone already.
    fn mark_deleted(&mut self, id: ShortEventId, by: ShortEventId)
        requires
            old(self).wf(),
        ensures
            final(self).wf(),
            final(self).view() == (DbView {
                content: spec_mark_deleted(old(self).view().content, id, by),
                ..old(self).view()
            }),
    {
        let tomb = match self.events_content.get(&id) {
            Some(EventContentState::Deleted { .. }) => true,
            Some(EventContentState::Pruned) => true,
            _ => false,
        };
        if !tomb {
            let st = EventContentState::Deleted { deleted_by: by };
            self.events_content.insert(id, st);
            proof {
                lemma_map_values_insert(
                    old(self).events_content@,
                    id,
                    st,
                    |c: EventContentState| c.view(),
                );
            }
        }
    }

    fn parent_step(&mut self, author: RostraId, s: ShortEventId, p: ShortEventId, deleting: bool) -> (r:
        bool)
        requires
            old(self).wf(),
        ensures
            final(self).wf(),
            (final(self).view(), r) == spec_parent_step(old(self).view(), author, s, p, deleting),
    {
        if p.is_zero() {
            return false;
        }
        let k = AuthorEventKey { author, event_id: p };
        let stored = self.events.contains(&p);
        let mut newly = false;
        if !stored {
            match self.events_missing.get(&k) {
                None => {
                    let rec = EventsMissingRecord {
                        deleted_by: if deleting {
                            Some(s)
                        } else {
                            None
                        },
                    };
                    self.events_missing.insert(k, rec);
                    newly = true;
                },
                Some(rec) => {
                    if deleting && rec.deleted_by.is_none() {
                        self.events_missing.insert(k, EventsMissingRecord { deleted_by: Some(s) });
                    }
                },
            }
        }
        if deleting && stored {
            self.mark_deleted(p, s);
        }
        self.events_heads.remove(&k);
        newly
    }

    /// Inserts a verified event: stores it, records its parents as missing
    /// where they are not stored, applies a deletion, and updates the heads
    /// of its author.
    pub fn insert_event_tx(&mut self, v: &VerifiedEvent) -> (r: InsertEventOutcome)
        requires
            old(self).wf(),
        ensures
            final(self).wf(),
            (final(self).view(), r@) == spec_insert_event(old(self).view(), *v),
    {
        let s = v.short_id();
        let e = *v.event();
        if self.events.contains(&s) {
            return InsertEventOutcome::AlreadyPresent;
        }
        self.events.insert(s, EventRecord { signed: SignedEvent { event: e, sig: v.sig() } });
        self.events_by_time.insert(TimeEventKey { timestamp: e.timestamp, event_id: s }, ());
        let n1 = self.parent_step(e.author, s, e.parent_prev, false);
        let n2 = self.parent_step(e.author, s, e.parent_aux, e.is_delete());
        let k = AuthorEventKey { author: e.author, event_id: s };
        let removed = self.events_missing.remove(&k);
        let was_missing = removed.is_some();
        match removed {
            Some(rec) => match rec.deleted_by {
                Some(d) => self.mark_deleted(s, d),
                None => {},
            },
            None => {},
        }
        if !was_missing {
            self.events_heads.insert(k, EventsHeadsTableRecord);
        }
        let mut missing_parents: Vec<ShortEventId> = Vec::new();
        if n1 {
            missing_parents.push(e.parent_prev);
        }
        if n2 {
            missing_parents.push(e.parent_aux);
        }
        let is_deleted = match self.events_content.get(&s) {
            Some(EventContentState::Deleted { .. }) => true,
            _ => false,
        };
        let r = InsertEventOutcome::Inserted { was_missing, is_deleted, missing_parents };
        proof {
            let ghost sp = spec_insert_event(old(self).view(), *v);
            assert(r@->Inserted_missing_parents =~= sp.1->Inserted_missing_parents);
        }
        r
    }

    /// Marks the content of `id` pruned, unless it was deleted.
    pub fn prune_event_content_tx(&mut self, id: ShortEventId)
        requires
            old(self).wf(),
        ensures
            final(self).wf(),
            final(self).view() == (DbView {
                content: spec_prune(old(self).view().content, id),
                ..old(self).view()
            }),
    {
        let deleted = match self.events_content.get(&id) {
            Some(EventContentState::Deleted { .. }) => true,
            _ => false,
        };
        if !deleted {
            let st = EventContentState::Pruned;
            self.events_content.insert(id, st);
            proof {
                lemma_map_values_insert(
                    old(self).events_content@,
                    id,
                    st,
                    |c: EventContentState| c.view(),
                );
            }
        }
    }

    /// Stores content for `id` where nothing was recorded yet; returns
    /// whether it was stored.
    pub fn insert_event_content_tx(&mut self, id: ShortEventId, content: &EventContent) -> (r: bool)
        requires
            old(self).wf(),
        ensures
            final(self).wf(),
            (final(self).view().content, r) == spec_insert_content(
                old(self).view().content,
                id,
                content.bytes@,
            ),
            final(self).view() == (DbView { content: final(self).view().content, ..old(self).view() }),
    {
        if self.events_content.contains(&id) {
            return false;
        }
        let st = if content.bytes.len() <= MAX_CONTENT_LEN as usize {
            EventContentState::Present(
                EventContent { bytes: vstd::slice::slice_to_vec(content.bytes.as_slice()) },
            )
        } else {
            EventContentState::Pruned
        };
        let stored = content.bytes.len() <= MAX_CONTENT_LEN as usize;
        self.events_content.insert(id, st);
        proof {
            lemma_map_values_insert(
                old(self).events_content@,
                id,
                st,
                |c: EventContentState| c.view(),
            );
        }
        stored
    }

    /// Records that the local author made `id`.
    pub fn insert_self_event_id(&mut self, id: ShortEventId)
        requires
            old(self).wf(),
        ensures
            final(self).wf(),
            final(self).view() == (DbView {
                self_events: old(self).view().self_events.insert(id, ()),
                ..old(self).view()
            }),
    {
        self.events_self.insert(id, ());
    }

    fn has_newer_unfollow(&self, follower: &RostraId, followee: &RostraId, t: u64) -> (r: bool)
        requires
            self.wf(),
        ensures
            r == spec_has_newer_unfollow(self.view(), *follower, *followee, t),
    {
        let mut i: usize = 0;
        while i < self.ids_unfollowed.len()
            invariant
                self.wf(),
                i <= self.ids_unfollowed.entries@.len(),
                forall|j: int|
                    0 <= j < i ==> !(#[trigger] self.ids_unfollowed.entries@[j].0.follower
                        == *follower && self.ids_unfollowed.entries@[j].0.followee == *followee
                        && self.ids_unfollowed.entries@[j].0.timestamp >= t),
            decreases self.ids_unfollowed.entries@.len() - i,
        {
            let e = self.ids_unfollowed.entry(i);
            if e.0.follower.same(follower) && e.0.followee.same(followee) && e.0.timestamp >= t {
                let k = UnfollowKey { follower: *follower, followee: *followee, timestamp: e.0.timestamp };
                assert(e.0 == k);
                assert(self.view().unfollowed.contains_key(k));
                return true;
            }
            i = i + 1;
        }
        assert forall|ts: u64|
            ts >= t implies !#[trigger] self.view().unfollowed.contains_key(
            UnfollowKey { follower: *follower, followee: *followee, timestamp: ts },
        ) by {
            let k = UnfollowKey { follower: *follower, followee: *followee, timestamp: ts };
            if self.ids_unfollowed@.contains_key(k) {
                let j = choose|j: int|
                    0 <= j < self.ids_unfollowed.entries@.len()
                        && #[trigger] self.ids_unfollowed.entries@[j].0 == k;
                assert(self.ids_unfollowed.entries@[j].0.follower == *follower);
            }
        }
        false
    }

    /// Applies a follow of `follow.followee` by `author` at `timestamp`, made
    /// by the event `event_id`; returns whether the follow graph changed.
    pub fn insert_follow_tx(
        &mut self,
        author: RostraId,
        timestamp: u64,
        event_id: ShortEventId,
        follow: crate::event::Follow,
    ) -> (r: bool)
        requires
            old(self).wf(),
        ensures
            final(self).wf(),
            (final(self).view(), r) == spec_insert_follow(
                old(self).view(),
                author,
                timestamp,
                event_id,
                follow,
            ),
    {
        if self.has_newer_unfollow(&author, &follow.followee, timestamp) {
            return false;
        }
        let fk = FollowKey { from: author, to: follow.followee };
        let rk = FollowKey { from: follow.followee, to: author };
        match self.ids_followees.get(&fk) {
            Some(rec) => {
                let older = rec.timestamp < timestamp || (rec.timestamp == timestamp
                    && rec.event_id.less_than(&event_id));
                if !older {
                    return false;
                }
            },
            None => {},
        }
        let rec = IdsFolloweesRecord { persona: follow.persona, timestamp, event_id };
        self.ids_followees.insert(fk, rec);
        self.ids_followers.insert(rk, rec);
        true
    }

    /// Applies an unfollow of `unfollow.followee` by `author` at
    /// `timestamp`; returns whether the follow graph changed.
    pub fn insert_unfollow_tx(
        &mut self,
        author: RostraId,
        timestamp: u64,
        unfollow: crate::event::Unfollow,
    ) -> (r: bool)
        requires
            old(self).wf(),
        ensures
            final(self).wf(),
            (final(self).view(), r) == spec_insert_unfollow(
                old(self).view(),
                author,
                timestamp,
                unfollow,
            ),
    {
        if self.has_newer_unfollow(&author, &unfollow.followee, timestamp) {
            return false;
        }
        let fk = FollowKey { from: author, to: unfollow.followee };
        let rk = FollowKey { from: unfollow.followee, to: author };
        let remove = match self.ids_followees.get(&fk) {
            Some(rec) => rec.timestamp <= timestamp,
            None => false,
        };
        if remove {
            self.ids_followees.remove(&fk);
            self.ids_followers.remove(&rk);
        }
        self.ids_unfollowed.insert(
            UnfollowKey { follower: author, followee: unfollow.followee, timestamp },
            (),
        );
        remove
    }

    pub fn has_event(&self, id: &ShortEventId) -> (r: bool)
        requires
            self.wf(),
        ensures
            r == self.view().events.contains_key(*id),
    {
        self.events.contains(id)
    }

    pub fn get_event(&self, id: &ShortEventId) -> (r: Option<EventRecord>)
        requires
            self.wf(),
        ensures
            r == (if self.view().events.contains_key(*id) {
                Some(self.view().events[*id])
            } else {
                None
            }),
    {
        match self.events.get(id) {
            Some(rec) => Some(*rec),
            None => None,
        }
    }

    /// Whether any content state is recorded for `id`.
    pub fn has_event_content(&self, id: &ShortEventId) -> (r: bool)
        requires
            self.wf(),
        ensures
            r == self.view().content.contains_key(*id),
    {
        self.events_content.contains(id)
    }

    /// The content of `id`, where it is present.
    pub fn get_event_content(&self, id: &ShortEventId) -> (r: Option<EventContent>)
        requires
            self.wf(),
        ensures
            r is Some <==> (self.view().content.contains_key(*id)
                && self.view().content[*id] is Present),
            r matches Some(c) ==> self.view().content[*id] == ContentView::Present(c.bytes@),
    {
        match self.events_content.get(id) {
            Some(EventContentState::Present(c)) => Some(
                EventContent { bytes: vstd::slice::slice_to_vec(c.bytes.as_slice()) },
            ),
            _ => None,
        }
    }

    /// The head of `author` with the smallest id, if `author` has any.
    pub fn get_head(&self, author: &RostraId) -> (r: Option<ShortEventId>)
        requires
            self.wf(),
        ensures
            r is None <==> !exists|h: ShortEventId|
                #[trigger] self.view().heads.contains_key(AuthorEventKey { author: *author, event_id: h }),
            r matches Some(h) ==> self.view().heads.contains_key(
                AuthorEventKey { author: *author, event_id: h },
            ),
            r matches Some(h) ==> forall|o: ShortEventId|
                #[trigger] self.view().heads.contains_key(AuthorEventKey { author: *author, event_id: o })
                    ==> !crate::ids::seq_lt(o.bytes@, h.bytes@),
    {
        let mut best: Option<ShortEventId> = None;
        let mut i: usize = 0;
        while i < self.events_heads.len()
            invariant
                self.wf(),
                i <= self.events_heads.entries@.len(),
                best is None ==> forall|j: int|
                    0 <= j < i ==> (#[trigger] self.events_heads.entries@[j]).0.author != *author,
                best matches Some(h) ==> self.events_heads@.contains_key(
                    AuthorEventKey { author: *author, event_id: h },
                ),
                best matches Some(h) ==> forall|j: int|
                    0 <= j < i && (#[trigger] self.events_heads.entries@[j]).0.author == *author
                        ==> !crate::ids::seq_lt(self.events_heads.entries@[j].0.event_id.bytes@, h.bytes@),
            decreases self.events_heads.entries@.len() - i,
        {
            let e = self.events_heads.entry(i);
            if e.0.author.same(author) {
                let ghost key = e.0;
                assert(key == AuthorEventKey { author: *author, event_id: e.0.event_id });
                match best {
                    None => {
                        best = Some(e.0.event_id);
                        proof {
                            crate::ids::lemma_seq_lt_irreflexive(e.0.event_id.bytes@);
                        }
                    },
                    Some(h) => {
                        if e.0.event_id.less_than(&h) {
                            proof {
                                assert forall|j: int|
                                    0 <= j < i + 1 && (#[trigger] self.events_heads.entries@[j]).0.author
                                        == *author implies !crate::ids::seq_lt(
                                    self.events_heads.entries@[j].0.event_id.bytes@,
                                    e.0.event_id.bytes@,
                                ) by {
                                    if j < i {
                                        crate::ids::lemma_seq_lt_trans_not(
                                            self.events_heads.entries@[j].0.event_id.bytes@,
                                            h.bytes@,
                                            e.0.event_id.bytes@,
                                        );
                                    } else {
                                        crate::ids::lemma_seq_lt_irreflexive(e.0.event_id.bytes@);
                                    }
                                }
                            }
                            best = Some(e.0.event_id);
                        }
                    },
                }
            }
            i = i + 1;
        }
        proof {
            match best {
                None => {
                    assert forall|h: ShortEventId|
                        !#[trigger] self.view().heads.contains_key(
                        AuthorEventKey { author: *author, event_id: h },
                    ) by {
                        let k = AuthorEventKey { author: *author, event_id: h };
                        if self.events_heads@.contains_key(k) {
                            let j = choose|j: int|
                                0 <= j < self.events_heads.entries@.len()
                                    && #[trigger] self.events_heads.entries@[j].0 == k;
                            assert(self.events_heads.entries@[j].0.author == *author);
                        }
                    }
                },
                Some(h) => {
                    assert(self.view().heads.contains_key(AuthorEventKey { author: *author, event_id: h }));
                    assert forall|o: ShortEventId|
                        #[trigger] self.view().heads.contains_key(AuthorEventKey { author: *author, event_id: o })
                            implies !crate::ids::seq_lt(o.bytes@, h.bytes@) by {
                        let k = AuthorEventKey { author: *author, event_id: o };
                        let j = choose|j: int|
                            0 <= j < self.events_heads.entries@.len()
                                && #[trigger] self.events_heads.entries@[j].0 == k;
                        assert(self.events_heads.entries@[j].0.author == *author);
                    }
                },
            }
        }
        best
    }

    /// The follows of `id`: each followee with its record.
    pub fn read_followees(&self, id: &RostraId) -> (r: Vec<(RostraId, IdsFolloweesRecord)>)
        requires
            self.wf(),
        ensures
            forall|i: int|
                0 <= i < r@.len() ==> self.view().followees.contains_key(
                    FollowKey { from: *id, to: (#[trigger] r@[i]).0 },
                ) && self.view().followees[FollowKey { from: *id, to: r@[i].0 }] == r@[i].1,
            forall|f: RostraId|
                #[trigger] self.view().followees.contains_key(FollowKey { from: *id, to: f })
                    ==> exists|i: int| 0 <= i < r@.len() && #[trigger] r@[i].0 == f,
            forall|i: int, j: int| 0 <= i < j < r@.len() ==> (#[trigger] r@[i]).0 != (#[trigger] r@[j]).0,
    {
        let mut out: Vec<(RostraId, IdsFolloweesRecord)> = Vec::new();
        let mut i: usize = 0;
        while i < self.ids_followees.len()
            invariant
                self.wf(),
                i <= self.ids_followees.entries@.len(),
                forall|k: int|
                    0 <= k < out@.len() ==> self.ids_followees@.contains_key(
                        FollowKey { from: *id, to: (#[trigger] out@[k]).0 },
                    ) && self.ids_followees@[FollowKey { from: *id, to: out@[k].0 }] == out@[k].1,
                forall|k: int|
                    0 <= k < out@.len() ==> exists|j: int|
                        0 <= j < i && #[trigger] self.ids_followees.entries@[j].0 == (FollowKey {
                            from: *id,
                            to: (#[trigger] out@[k]).0,
                        }),
                forall|j: int|
                    0 <= j < i && (#[trigger] self.ids_followees.entries@[j]).0.from == *id
                        ==> exists|k: int|
                        0 <= k < out@.len() && #[trigger] out@[k].0
                            == self.ids_followees.entries@[j].0.to,
                forall|a: int, b: int| 0 <= a < b < out@.len() ==> (#[trigger] out@[a]).0 != (#[trigger] out@[b]).0,
            decreases self.ids_followees.entries@.len() - i,
        {
            let e = self.ids_followees.entry(i);
            if e.0.from.same(id) {
                proof {
                    assert(e.0 == FollowKey { from: *id, to: e.0.to });
                    assert forall|k: int| 0 <= k < out@.len() implies (#[trigger] out@[k]).0 != e.0.to by {
                        let j = choose|j: int|
                            0 <= j < i && #[trigger] self.ids_followees.entries@[j].0 == (FollowKey {
                                from: *id,
                                to: out@[k].0,
                            });
                        if out@[k].0 == e.0.to {
                            assert(self.ids_followees.entries@[j].0 == self.ids_followees.entries@[i as int].0);
                        }
                    }
                }
                let ghost prev = out@;
                out.push((e.0.to, e.1));
                proof {
                    assert forall|j: int|
                        0 <= j < i + 1 && (#[trigger] self.ids_followees.entries@[j]).0.from == *id
                            implies exists|k: int|
                            0 <= k < out@.len() && #[trigger] out@[k].0
                                == self.ids_followees.entries@[j].0.to by {
                        if j < i {
                            let k = choose|k: int|
                                0 <= k < prev.len() && #[trigger] prev[k].0
                                    == self.ids_followees.entries@[j].0.to;
                            assert(out@[k] == prev[k]);
                        } else {
                            assert(out@[out@.len() - 1].0 == e.0.to);
                        }
                    }
                    assert forall|k: int|
                        0 <= k < out@.len() implies exists|j: int|
                            0 <= j < i + 1 && #[trigger] self.ids_followees.entries@[j].0 == (FollowKey {
                                from: *id,
                                to: (#[trigger] out@[k]).0,
                            }) by {
                        if k < prev.len() {
                            assert(out@[k] == prev[k]);
                            let j = choose|j: int|
                                0 <= j < i && #[trigger] self.ids_followees.entries@[j].0 == (FollowKey {
                                    from: *id,
                                    to: prev[k].0,
                                });
                        } else {
                            assert(self.ids_followees.entries@[i as int].0 == (FollowKey { from: *id, to: out@[k].0 }));
                        }
                    }
                }
            }
            i = i + 1;
        }
        proof {
            assert forall|f: RostraId|
                #[trigger] self.view().followees.contains_key(FollowKey { from: *id, to: f })
                    implies exists|k: int| 0 <= k < out@.len() && #[trigger] out@[k].0 == f by {
                let key = FollowKey { from: *id, to: f };
                let j = choose|j: int|
                    0 <= j < self.ids_followees.entries@.len()
                        && #[trigger] self.ids_followees.entries@[j].0 == key;
                assert(self.ids_followees.entries@[j].0.from == *id);
            }
        }
        out
    }

    /// One of the local author's events: the one at `pick` modulo their
    /// number, or `None` if there are none.
    pub fn get_random_self_event(&self, pick: u64) -> (r: Option<ShortEventId>)
        requires
            self.wf(),
        ensures
            r is None <==> self.view().self_events.is_empty(),
            r matches Some(id) ==> self.view().self_events.contains_key(id),
    {
        let n = self.events_self.len();
        if n == 0 {
            proof {
                assert forall|k: ShortEventId| !self.events_self@.contains_key(k) by {
                    if self.events_self@.contains_key(k) {
                        let j = choose|j: int|
                            0 <= j < self.events_self.entries@.len()
                                && #[trigger] self.events_self.entries@[j].0 == k;
                    }
                }
                assert(self.events_self@ =~= Map::empty());
            }
            return None;
        }
        let i = (pick % (n as u64)) as usize;
        let e = self.events_self.entry(i);
        Some(e.0)
    }

    /// The heads of `author`.
    pub fn get_heads(&self, author: &RostraId) -> (r: Vec<ShortEventId>)
        requires
            self.wf(),
        ensures
            forall|i: int|
                0 <= i < r@.len() ==> self.view().heads.contains_key(
                    AuthorEventKey { author: *author, event_id: #[trigger] r@[i] },
                ),
            forall|h: ShortEventId|
                #[trigger] self.view().heads.contains_key(AuthorEventKey { author: *author, event_id: h })
                    ==> r@.contains(h),
    {
        ids_of_author(&self.events_heads, author)
    }

    /// The parents of `author`'s events that are missing.
    pub fn get_missing(&self, author: &RostraId) -> (r: Vec<ShortEventId>)
        requires
            self.wf(),
        ensures
            forall|i: int|
                0 <= i < r@.len() ==> self.view().missing.contains_key(
                    AuthorEventKey { author: *author, event_id: #[trigger] r@[i] },
                ),
            forall|h: ShortEventId|
                #[trigger] self.view().missing.contains_key(AuthorEventKey { author: *author, event_id: h })
                    ==> r@.contains(h),
    {
        ids_of_author(&self.events_missing, author)
    }

    /// The content state recorded for `id`.
    pub fn get_content_state(&self, id: &ShortEventId) -> (r: Option<EventContentState>)
        requires
            self.wf(),
        ensures
            r is Some <==> self.view().content.contains_key(*id),
            r matches Some(c) ==> c.view() == self.view().content[*id],
    {
        match self.events_content.get(id) {
            Some(EventContentState::Present(c)) => Some(
                EventContentState::Present(
                    EventContent { bytes: vstd::slice::slice_to_vec(c.bytes.as_slice()) },
                ),
            ),
            Some(EventContentState::Deleted { deleted_by }) => Some(
                EventContentState::Deleted { deleted_by: *deleted_by },
            ),
            Some(EventContentState::Pruned) => Some(EventContentState::Pruned),
            None => None,
        }
    }

    /// The follow record of `followee` by `follower`.
    pub fn get_followee(&self, follower: &RostraId, followee: &RostraId) -> (r: Option<IdsFolloweesRecord>)
        requires
            self.wf(),
        ensures
            r == (if self.view().followees.contains_key(FollowKey { from: *follower, to: *followee }) {
                Some(self.view().followees[FollowKey { from: *follower, to: *followee }])
            } else {
                None
            }),
    {
        match self.ids_followees.get(&FollowKey { from: *follower, to: *followee }) {
            Some(r) => Some(*r),
            None => None,
        }
    }

    /// The reverse follow record: `follower` among the followers of
    /// `followee`.
    pub fn get_follower(&self, followee: &RostraId, follower: &RostraId) -> (r: Option<IdsFolloweesRecord>)
        requires
            self.wf(),
        ensures
            r == (if self.view().followers.contains_key(FollowKey { from: *followee, to: *follower }) {
                Some(self.view().followers[FollowKey { from: *followee, to: *follower }])
            } else {
                None
            }),
    {
        match self.ids_followers.get(&FollowKey { from: *followee, to: *follower }) {
            Some(r) => Some(*r),
            None => None,
        }
    }

    /// Whether an unfollow of `followee` by `follower` at `timestamp` is
    /// recorded.
    pub fn has_unfollow(&self, follower: &RostraId, followee: &RostraId, timestamp: u64) -> (r: bool)
        requires
            self.wf(),
        ensures
            r == self.view().unfollowed.contains_key(
                UnfollowKey { follower: *follower, followee: *followee, timestamp },
            ),
    {
        self.ids_unfollowed.contains(&UnfollowKey { follower: *follower, followee: *followee, timestamp })
    }
}

} // verus!
