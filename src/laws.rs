//! Properties that relate several operations of the library.
use vstd::prelude::*;

use crate::crypto::blake3_of;
use crate::db::{
    AuthorEventKey, is_tombstone, spec_insert_event, spec_insert_follow, spec_insert_unfollow, spec_prune, DbView,
    FollowKey, IdsFolloweesRecord, UnfollowKey,
};
use crate::event::{event_id_of, lemma_decode_encode, spec_decode, spec_encode, Event, Follow, Unfollow};
use crate::ids::{PersonaId, RostraId, ShortEventId};
use crate::storage::{spec_process_content, spec_process_event};
use crate::verify::VerifiedEvent;

verus! {

/// Decoding the encoding of an event gives the event back, with the same id.
pub proof fn lemma_round_trip(e: Event)
    ensures
        spec_decode(spec_encode(e)) == Some(e),
        event_id_of(spec_decode(spec_encode(e)).unwrap()) == event_id_of(e),
{
    lemma_decode_encode(e);
}

/// The same bytes have the same content hash.
pub proof fn lemma_content_hash_deterministic(a: Seq<u8>, b: Seq<u8>)
    requires
        a == b,
    ensures
        blake3_of(a) == blake3_of(b),
{
}

/// Processing an event a second time changes nothing and finds it present.
pub proof fn lemma_process_event_idempotent(d: DbView, self_id: RostraId, v: VerifiedEvent)
    ensures
        ({
            let (d1, o1, s1) = spec_process_event(d, self_id, v);
            let (d2, o2, s2) = spec_process_event(d1, self_id, v);
            d2 == d1 && o2 is AlreadyPresent
        }),
{
    let s = v.spec_short_id();
    let (d1, o1, s1) = spec_process_event(d, self_id, v);
    let (i1, io) = spec_insert_event(d, v);
    assert(i1.events.contains_key(s));
    assert(d1.events.contains_key(s));
    let c0 = i1.content;
    if crate::db::MAX_CONTENT_LEN < v.spec_event().content_len {
        assert(d1.content == spec_prune(c0, s));
        assert(spec_prune(spec_prune(c0, s), s) =~= spec_prune(c0, s));
        let (d2, o2, s2) = spec_process_event(d1, self_id, v);
        assert(d2.content == spec_prune(d1.content, s));
        assert(d2 == d1);
    }
}

/// A content state that is a tombstone stays one through inserting an
/// event.
pub proof fn lemma_insert_event_keeps_tombstones(d: DbView, v: VerifiedEvent, x: ShortEventId)
    requires
        d.content.contains_key(x),
        is_tombstone(d.content[x]),
    ensures
        spec_insert_event(d, v).0.content.contains_key(x),
        is_tombstone(spec_insert_event(d, v).0.content[x]),
{
}

/// Once the content of an event is deleted or pruned, processing an event
/// or content never makes it present again; content that arrives for that
/// event changes nothing.
pub proof fn lemma_tombstones_stay(
    d: DbView,
    self_id: RostraId,
    v: VerifiedEvent,
    c: VerifiedEvent,
    bytes: Seq<u8>,
    x: ShortEventId,
)
    requires
        d.content.contains_key(x),
        is_tombstone(d.content[x]),
    ensures
        spec_process_event(d, self_id, v).0.content.contains_key(x),
        is_tombstone(spec_process_event(d, self_id, v).0.content[x]),
        spec_process_content(d, self_id, c, bytes).0.content.contains_key(x),
        is_tombstone(spec_process_content(d, self_id, c, bytes).0.content[x]),
        x == c.spec_short_id() ==> spec_process_content(d, self_id, c, bytes) == (d, false),
{
    lemma_insert_event_keeps_tombstones(d, v, x);
}

/// One follow (with its persona) or unfollow (without) of a fixed followee
/// by a fixed follower, made by an event at a time.
pub struct FollowChange {
    pub timestamp: u64,
    pub event_id: ShortEventId,
    pub persona: Option<PersonaId>,
}

/// `x` comes before `y` by timestamp, then by short id.
pub open spec fn change_before(x: FollowChange, y: FollowChange) -> bool {
    x.timestamp < y.timestamp || (x.timestamp == y.timestamp && crate::ids::seq_lt(
        x.event_id.bytes@,
        y.event_id.bytes@,
    ))
}

/// What one change does to the database.
pub open spec fn spec_apply_change(d: DbView, a: RostraId, b: RostraId, c: FollowChange) -> DbView {
    match c.persona {
        Some(p) => spec_insert_follow(d, a, c.timestamp, c.event_id, Follow { followee: b, persona: p }).0,
        None => spec_insert_unfollow(d, a, c.timestamp, Unfollow { followee: b }).0,
    }
}

/// What a sequence of changes does, applied in order.
pub open spec fn spec_apply_changes(d: DbView, a: RostraId, b: RostraId, cs: Seq<FollowChange>) -> DbView
    decreases cs.len(),
{
    if cs.len() == 0 {
        d
    } else {
        spec_apply_change(spec_apply_changes(d, a, b, cs.drop_last()), a, b, cs.last())
    }
}

/// The change that comes last by timestamp and then short id; the first
/// of them where two are equal in both.
pub open spec fn latest_change(cs: Seq<FollowChange>) -> FollowChange
    decreases cs.len(),
{
    if cs.len() <= 1 {
        cs[0]
    } else {
        let l = latest_change(cs.drop_last());
        if change_before(l, cs.last()) {
            cs.last()
        } else {
            l
        }
    }
}

/// No follow has the timestamp of an unfollow.
pub open spec fn kinds_apart(cs: Seq<FollowChange>) -> bool {
    forall|i: int, j: int|
        0 <= i < cs.len() && 0 <= j < cs.len() && (#[trigger] cs[i]).persona is Some && (
        #[trigger] cs[j]).persona is None ==> cs[i].timestamp != cs[j].timestamp
}

proof fn lemma_latest(cs: Seq<FollowChange>)
    requires
        cs.len() > 0,
    ensures
        exists|i: int| 0 <= i < cs.len() && cs[i] == latest_change(cs),
        forall|i: int| 0 <= i < cs.len() ==> (#[trigger] cs[i]).timestamp <= latest_change(cs).timestamp,
    decreases cs.len(),
{
    if cs.len() > 1 {
        let p = cs.drop_last();
        lemma_latest(p);
        let i = choose|i: int| 0 <= i < p.len() && p[i] == latest_change(p);
        if change_before(latest_change(p), cs.last()) {
            assert(cs[cs.len() - 1] == latest_change(cs));
        } else {
            assert(cs[i] == latest_change(cs));
        }
        assert forall|k: int| 0 <= k < cs.len() implies (#[trigger] cs[k]).timestamp
            <= latest_change(cs).timestamp by {
            if k < cs.len() - 1 {
                assert(cs[k] == p[k]);
            }
        }
    } else {
        assert(cs[0] == latest_change(cs));
    }
}

/// What the follow tables hold of `a` following `b` after the changes `cs`.
pub open spec fn follow_state_matches(d: DbView, a: RostraId, b: RostraId, cs: Seq<FollowChange>) -> bool {
    let fk = FollowKey { from: a, to: b };
    let rk = FollowKey { from: b, to: a };
    &&& cs.len() == 0 ==> !d.followees.contains_key(fk) && !d.followers.contains_key(rk)
    &&& cs.len() > 0 ==> match latest_change(cs).persona {
        Some(p) => {
            &&& d.followees.contains_key(fk)
            &&& d.followees[fk] == IdsFolloweesRecord {
                persona: p,
                timestamp: latest_change(cs).timestamp,
                event_id: latest_change(cs).event_id,
            }
            &&& d.followers.contains_key(rk)
            &&& d.followers[rk] == d.followees[fk]
        },
        None => !d.followees.contains_key(fk) && !d.followers.contains_key(rk),
    }
}

/// The unfollows of `a` following `b` that are recorded are those of `cs`,
/// and for each unfollow of `cs` one as late or later is recorded.
pub open spec fn unfollows_match(d: DbView, a: RostraId, b: RostraId, cs: Seq<FollowChange>) -> bool {
    &&& forall|t: u64|
        #[trigger] d.unfollowed.contains_key(UnfollowKey { follower: a, followee: b, timestamp: t })
            ==> exists|i: int| 0 <= i < cs.len() && cs[i].persona is None && cs[i].timestamp == t
    &&& forall|i: int|
        0 <= i < cs.len() && (#[trigger] cs[i]).persona is None ==> exists|t: u64|
            t >= cs[i].timestamp && #[trigger] d.unfollowed.contains_key(
                UnfollowKey { follower: a, followee: b, timestamp: t },
            )
}

/// An unfollow at `t` or later is recorded exactly when `cs` holds one.
proof fn lemma_newer_unfollow(d: DbView, a: RostraId, b: RostraId, cs: Seq<FollowChange>, t: u64)
    requires
        unfollows_match(d, a, b, cs),
    ensures
        crate::db::spec_has_newer_unfollow(d, a, b, t) <==> exists|i: int|
            0 <= i < cs.len() && (#[trigger] cs[i]).persona is None && cs[i].timestamp >= t,
{
    if crate::db::spec_has_newer_unfollow(d, a, b, t) {
        let ts = choose|ts: u64|
            ts >= t && #[trigger] d.unfollowed.contains_key(
                UnfollowKey { follower: a, followee: b, timestamp: ts },
            );
        let i = choose|i: int| 0 <= i < cs.len() && cs[i].persona is None && cs[i].timestamp == ts;
        assert(cs[i].persona is None && cs[i].timestamp >= t);
    }
    if exists|i: int| 0 <= i < cs.len() && (#[trigger] cs[i]).persona is None && cs[i].timestamp >= t {
        let i = choose|i: int| 0 <= i < cs.len() && (#[trigger] cs[i]).persona is None && cs[i].timestamp >= t;
        let ts = choose|ts: u64|
            ts >= cs[i].timestamp && #[trigger] d.unfollowed.contains_key(
                UnfollowKey { follower: a, followee: b, timestamp: ts },
            );
        assert(ts >= t);
    }
}

proof fn lemma_latest_push(prev: Seq<FollowChange>, c: FollowChange)
    ensures
        latest_change(prev.push(c)) == (if prev.len() == 0 {
            c
        } else if change_before(latest_change(prev), c) {
            c
        } else {
            latest_change(prev)
        }),
{
    assert(prev.push(c).drop_last() =~= prev);
    if prev.len() == 0 {
        assert(prev.push(c)[0] == c);
    }
}

proof fn lemma_step_unfollows(d: DbView, a: RostraId, b: RostraId, prev: Seq<FollowChange>, c: FollowChange)
    requires
        unfollows_match(d, a, b, prev),
    ensures
        unfollows_match(spec_apply_change(d, a, b, c), a, b, prev.push(c)),
{
    let cs = prev.push(c);
    let d2 = spec_apply_change(d, a, b, c);
    let t = c.timestamp;
    let n = prev.len() as int;
    assert(cs[n] == c);
    lemma_newer_unfollow(d, a, b, prev, t);
    assert forall|ts: u64|
        #[trigger] d2.unfollowed.contains_key(UnfollowKey { follower: a, followee: b, timestamp: ts })
            implies exists|i: int| 0 <= i < cs.len() && cs[i].persona is None && cs[i].timestamp == ts by {
        if d.unfollowed.contains_key(UnfollowKey { follower: a, followee: b, timestamp: ts }) {
            let i = choose|i: int| 0 <= i < prev.len() && prev[i].persona is None && prev[i].timestamp == ts;
            assert(cs[i] == prev[i]);
        } else {
            assert(cs[n].persona is None && cs[n].timestamp == ts);
        }
    }
    assert forall|i: int|
        0 <= i < cs.len() && (#[trigger] cs[i]).persona is None implies exists|ts: u64|
            ts >= cs[i].timestamp && #[trigger] d2.unfollowed.contains_key(
                UnfollowKey { follower: a, followee: b, timestamp: ts },
            ) by {
        if i < n {
            assert(prev[i] == cs[i]);
            let ts = choose|ts: u64|
                ts >= prev[i].timestamp && #[trigger] d.unfollowed.contains_key(
                    UnfollowKey { follower: a, followee: b, timestamp: ts },
                );
            assert(d2.unfollowed.contains_key(UnfollowKey { follower: a, followee: b, timestamp: ts }));
        } else if crate::db::spec_has_newer_unfollow(d, a, b, t) {
            let ts = choose|ts: u64|
                ts >= t && #[trigger] d.unfollowed.contains_key(
                    UnfollowKey { follower: a, followee: b, timestamp: ts },
                );
            assert(d2.unfollowed.contains_key(UnfollowKey { follower: a, followee: b, timestamp: ts }));
        } else {
            assert(d2.unfollowed.contains_key(UnfollowKey { follower: a, followee: b, timestamp: t }));
        }
    }
}

#[verifier::rlimit(40)]
proof fn lemma_step_state(d: DbView, a: RostraId, b: RostraId, prev: Seq<FollowChange>, c: FollowChange)
    requires
        follow_state_matches(d, a, b, prev),
        unfollows_match(d, a, b, prev),
        kinds_apart(prev.push(c)),
    ensures
        follow_state_matches(spec_apply_change(d, a, b, c), a, b, prev.push(c)),
{
    let cs = prev.push(c);
    let t = c.timestamp;
    let n = prev.len() as int;
    assert(cs[n] == c);
    lemma_latest_push(prev, c);
    lemma_newer_unfollow(d, a, b, prev, t);
    if prev.len() > 0 {
        lemma_latest(prev);
        let li = choose|i: int| 0 <= i < prev.len() && prev[i] == latest_change(prev);
        assert(cs[li] == prev[li]);
        if latest_change(prev).persona is Some && c.persona is None {
            assert(cs[li].persona is Some && cs[n].persona is None);
            assert(latest_change(prev).timestamp != t);
        }
        if latest_change(prev).persona is None && c.persona is Some {
            assert(cs[n].persona is Some && cs[li].persona is None);
            assert(latest_change(prev).timestamp != t);
        }
        if crate::db::spec_has_newer_unfollow(d, a, b, t) {
            let i = choose|i: int| 0 <= i < prev.len() && (#[trigger] prev[i]).persona is None && prev[i].timestamp >= t;
            assert(cs[i] == prev[i]);
            assert(prev[i].timestamp <= latest_change(prev).timestamp);
            if c.persona is Some {
                assert(cs[n].persona is Some && cs[i].persona is None);
                assert(prev[i].timestamp != t);
            }
        } else if latest_change(prev).persona is None {
            assert(prev[li].persona is None);
            if latest_change(prev).timestamp >= t {
                assert(exists|i: int| 0 <= i < prev.len() && (#[trigger] prev[i]).persona is None && prev[i].timestamp >= t);
            }
        }
    }
}

proof fn lemma_follow_changes(d: DbView, a: RostraId, b: RostraId, cs: Seq<FollowChange>)
    requires
        kinds_apart(cs),
        follow_state_matches(d, a, b, Seq::empty()),
        unfollows_match(d, a, b, Seq::empty()),
    ensures
        follow_state_matches(spec_apply_changes(d, a, b, cs), a, b, cs),
        unfollows_match(spec_apply_changes(d, a, b, cs), a, b, cs),
    decreases cs.len(),
{
    if cs.len() > 0 {
        let prev = cs.drop_last();
        let c = cs.last();
        assert(cs =~= prev.push(c));
        assert(kinds_apart(prev)) by {
            assert forall|i: int, j: int|
                0 <= i < prev.len() && 0 <= j < prev.len() && (#[trigger] prev[i]).persona is Some && (
                #[trigger] prev[j]).persona is None implies prev[i].timestamp != prev[j].timestamp by {
                assert(prev[i] == cs[i] && prev[j] == cs[j]);
            }
        }
        lemma_follow_changes(d, a, b, prev);
        let dp = spec_apply_changes(d, a, b, prev);
        lemma_step_state(dp, a, b, prev, c);
        lemma_step_unfollows(dp, a, b, prev, c);
    }
}

/// For any sequence of follows and unfollows of `b` by `a`, starting where
/// nothing is recorded of the two, the follow tables end as the change that
/// comes last by `(timestamp, short id)` alone leaves them: a follow with
/// its persona, time and event, or no follow. Unfollows are ordered by time
/// alone, so no follow may share its time with an unfollow.
pub proof fn lemma_follow_last_writer_wins(d: DbView, a: RostraId, b: RostraId, cs: Seq<FollowChange>)
    requires
        cs.len() > 0,
        kinds_apart(cs),
        !d.followees.contains_key(FollowKey { from: a, to: b }),
        !d.followers.contains_key(FollowKey { from: b, to: a }),
        forall|t: u64| !#[trigger] d.unfollowed.contains_key(UnfollowKey { follower: a, followee: b, timestamp: t }),
    ensures
        ({
            let d2 = spec_apply_changes(d, a, b, cs);
            let m = latest_change(cs);
            let fk = FollowKey { from: a, to: b };
            let rk = FollowKey { from: b, to: a };
            &&& d2.followees.contains_key(fk) == (m.persona is Some)
            &&& d2.followers.contains_key(rk) == (m.persona is Some)
            &&& m.persona matches Some(p) ==> d2.followees[fk] == (IdsFolloweesRecord {
                persona: p,
                timestamp: m.timestamp,
                event_id: m.event_id,
            }) && d2.followers[rk] == d2.followees[fk]
        }),
{
    lemma_follow_changes(d, a, b, cs);
}

/// `e` names `p` as a parent; a zero parent names nothing.
pub open spec fn names_parent(e: Event, p: ShortEventId) -> bool {
    !p.spec_is_zero() && (e.parent_prev == p || e.parent_aux == p)
}

/// Some stored event of `a`, other than `p` itself, names `p` as a parent.
pub open spec fn has_stored_child(d: DbView, a: RostraId, p: ShortEventId) -> bool {
    exists|c: ShortEventId|
        c != p && #[trigger] d.events.contains_key(c) && d.events[c].signed.event.author == a
            && names_parent(d.events[c].signed.event, p)
}

/// The missing set holds exactly the non-zero parents that stored events of
/// an author name and that are not stored.
pub open spec fn missing_closed(d: DbView) -> bool {
    forall|k: AuthorEventKey|
        #[trigger] d.missing.contains_key(k) <==> (!k.event_id.spec_is_zero() && !d.events.contains_key(
            k.event_id,
        ) && has_stored_child(d, k.author, k.event_id))
}

/// The heads of an author are exactly its stored events that no other
/// stored event of it names as a parent.
pub open spec fn heads_correct(d: DbView) -> bool {
    forall|k: AuthorEventKey|
        #[trigger] d.heads.contains_key(k) <==> (d.events.contains_key(k.event_id)
            && d.events[k.event_id].signed.event.author == k.author && !has_stored_child(
            d,
            k.author,
            k.event_id,
        ))
}

proof fn lemma_parent_step_shape(d: DbView, author: RostraId, s: ShortEventId, p: ShortEventId, deleting: bool)
    ensures
        ({
            let d2 = crate::db::spec_parent_step(d, author, s, p, deleting).0;
            let kp = AuthorEventKey { author, event_id: p };
            &&& d2.events == d.events
            &&& forall|k: AuthorEventKey|
                #[trigger] d2.missing.contains_key(k) <==> (d.missing.contains_key(k) || (k == kp
                    && !p.spec_is_zero() && !d.events.contains_key(p)))
            &&& forall|k: AuthorEventKey|
                #[trigger] d2.heads.contains_key(k) <==> (d.heads.contains_key(k) && !(k == kp
                    && !p.spec_is_zero()))
        }),
{
}

proof fn lemma_insert_shape(d: DbView, v: VerifiedEvent)
    requires
        !d.events.contains_key(v.spec_short_id()),
    ensures
        ({
            let d2 = spec_insert_event(d, v).0;
            let s = v.spec_short_id();
            let e = v.spec_event();
            let ks = AuthorEventKey { author: e.author, event_id: s };
            &&& d2.events == d.events.insert(
                s,
                crate::db::EventRecord { signed: crate::event::SignedEvent { event: e, sig: v.spec_sig() } },
            )
            &&& forall|k: AuthorEventKey|
                #[trigger] d2.missing.contains_key(k) <==> (k != ks && (d.missing.contains_key(k) || (
                k.author == e.author && names_parent(e, k.event_id) && !d2.events.contains_key(
                    k.event_id,
                ))))
            &&& forall|k: AuthorEventKey|
                #[trigger] d2.heads.contains_key(k) <==> ((k == ks && !d.missing.contains_key(ks)) || (
                d.heads.contains_key(k) && !(k.author == e.author && names_parent(e, k.event_id))))
        }),
{
    let s = v.spec_short_id();
    let e = v.spec_event();
    let d1 = DbView {
        events: d.events.insert(
            s,
            crate::db::EventRecord { signed: crate::event::SignedEvent { event: e, sig: v.spec_sig() } },
        ),
        by_time: d.by_time.insert(crate::db::TimeEventKey { timestamp: e.timestamp, event_id: s }, ()),
        ..d
    };
    lemma_parent_step_shape(d1, e.author, s, e.parent_prev, false);
    let d2 = crate::db::spec_parent_step(d1, e.author, s, e.parent_prev, false).0;
    lemma_parent_step_shape(d2, e.author, s, e.parent_aux, e.spec_is_delete());
}

/// A new event of `e.author` adds itself as a child of its parents.
proof fn lemma_child_shape(d: DbView, v: VerifiedEvent, a2: RostraId, p: ShortEventId)
    requires
        !d.events.contains_key(v.spec_short_id()),
    ensures
        has_stored_child(spec_insert_event(d, v).0, a2, p) <==> (has_stored_child(d, a2, p) || (a2
            == v.spec_event().author && v.spec_short_id() != p && names_parent(v.spec_event(), p))),
{
    lemma_insert_shape(d, v);
    let d2 = spec_insert_event(d, v).0;
    let s = v.spec_short_id();
    if has_stored_child(d2, a2, p) {
        let c = choose|c: ShortEventId|
            c != p && #[trigger] d2.events.contains_key(c) && d2.events[c].signed.event.author == a2
                && names_parent(d2.events[c].signed.event, p);
        if c != s {
            assert(d.events.contains_key(c));
        }
    }
    if has_stored_child(d, a2, p) {
        let c = choose|c: ShortEventId|
            c != p && #[trigger] d.events.contains_key(c) && d.events[c].signed.event.author == a2
                && names_parent(d.events[c].signed.event, p);
        assert(d2.events.contains_key(c));
    }
    if a2 == v.spec_event().author && s != p && names_parent(v.spec_event(), p) {
        assert(d2.events.contains_key(s));
    }
}

#[verifier::rlimit(60)]
proof fn lemma_insert_preserves(d: DbView, v: VerifiedEvent)
    requires
        missing_closed(d),
        heads_correct(d),
        forall|b: RostraId|
            b != v.spec_event().author ==> !#[trigger] has_stored_child(d, b, v.spec_short_id()),
    ensures
        missing_closed(spec_insert_event(d, v).0),
        heads_correct(spec_insert_event(d, v).0),
        spec_insert_event(d, v).0.events.dom() == d.events.dom().insert(v.spec_short_id()),
{
    let s = v.spec_short_id();
    let a = v.spec_event().author;
    if d.events.contains_key(s) {
        assert(d.events.dom().insert(s) =~= d.events.dom());
        return;
    }
    lemma_insert_shape(d, v);
    let d2 = spec_insert_event(d, v).0;
    assert(d2.events.dom() =~= d.events.dom().insert(s));
    assert forall|k: AuthorEventKey|
        #[trigger] d2.missing.contains_key(k) <==> (!k.event_id.spec_is_zero() && !d2.events.contains_key(
            k.event_id,
        ) && has_stored_child(d2, k.author, k.event_id)) by {
        lemma_child_shape(d, v, k.author, k.event_id);
        if k.author != a && k.event_id == s {
            assert(!has_stored_child(d, k.author, s));
        }
    }
    assert forall|k: AuthorEventKey|
        #[trigger] d2.heads.contains_key(k) <==> (d2.events.contains_key(k.event_id)
            && d2.events[k.event_id].signed.event.author == k.author && !has_stored_child(
            d2,
            k.author,
            k.event_id,
        )) by {
        lemma_child_shape(d, v, k.author, k.event_id);
        let ks = AuthorEventKey { author: a, event_id: s };
        assert(d.missing.contains_key(ks) == (!s.spec_is_zero() && has_stored_child(d, a, s)));
        if k.event_id == s {
            assert(!d.heads.contains_key(k));
            if s.spec_is_zero() && has_stored_child(d, a, s) {
                let c = choose|c: ShortEventId|
                    c != s && #[trigger] d.events.contains_key(c) && d.events[c].signed.event.author == a
                        && names_parent(d.events[c].signed.event, s);
            }
        }
    }
}

/// Inserts events in order.
pub open spec fn spec_insert_events(d: DbView, vs: Seq<VerifiedEvent>) -> DbView
    decreases vs.len(),
{
    if vs.len() == 0 {
        d
    } else {
        spec_insert_event(spec_insert_events(d, vs.drop_last()), vs.last()).0
    }
}

/// The short ids of a sequence of events.
pub open spec fn short_ids(vs: Seq<VerifiedEvent>) -> Set<ShortEventId> {
    Set::new(|id: ShortEventId| exists|i: int| 0 <= i < vs.len() && (#[trigger] vs[i]).spec_short_id() == id)
}

/// No event of the sequence names as a parent an event of the sequence by
/// another author.
pub open spec fn no_cross_author_parents(vs: Seq<VerifiedEvent>) -> bool {
    forall|i: int, j: int|
        0 <= i < vs.len() && 0 <= j < vs.len() && (#[trigger] vs[i]).spec_event().author != (
        #[trigger] vs[j]).spec_event().author ==> !names_parent(vs[i].spec_event(), vs[j].spec_short_id())
}

proof fn lemma_insert_events_inv(d: DbView, vs: Seq<VerifiedEvent>)
    requires
        d.events.is_empty(),
        d.missing.is_empty(),
        d.heads.is_empty(),
        no_cross_author_parents(vs),
    ensures
        missing_closed(spec_insert_events(d, vs)),
        heads_correct(spec_insert_events(d, vs)),
        spec_insert_events(d, vs).events.dom() == short_ids(vs),
    decreases vs.len(),
{
    if vs.len() == 0 {
        assert(short_ids(vs) =~= Set::empty());
        assert(d.events.dom() =~= Set::empty());
    } else {
        let prev = vs.drop_last();
        let n = vs.len() - 1;
        let v = vs.last();
        assert(vs[n] == v);
        assert(no_cross_author_parents(prev)) by {
            assert forall|i: int, j: int|
                0 <= i < prev.len() && 0 <= j < prev.len() && (#[trigger] prev[i]).spec_event().author != (
                #[trigger] prev[j]).spec_event().author implies !names_parent(
                prev[i].spec_event(),
                prev[j].spec_short_id(),
            ) by {
                assert(prev[i] == vs[i] && prev[j] == vs[j]);
            }
        }
        lemma_insert_events_inv(d, prev);
        lemma_stored_records(d, prev);
        let dp = spec_insert_events(d, prev);
        assert forall|b: RostraId| b != v.spec_event().author implies !#[trigger] has_stored_child(
            dp,
            b,
            v.spec_short_id(),
        ) by {
            if has_stored_child(dp, b, v.spec_short_id()) {
                let c = choose|c: ShortEventId|
                    c != v.spec_short_id() && #[trigger] dp.events.contains_key(c)
                        && dp.events[c].signed.event.author == b && names_parent(
                        dp.events[c].signed.event,
                        v.spec_short_id(),
                    );
                let i = choose|i: int|
                    0 <= i < prev.len() && prev[i].spec_short_id() == c && dp.events[c] == record_of(prev[i]);
                assert(prev[i] == vs[i]);
                assert(!names_parent(vs[i].spec_event(), vs[n].spec_short_id()));
            }
        }
        lemma_insert_preserves(dp, v);
        assert(short_ids(vs) =~= short_ids(prev).insert(v.spec_short_id())) by {
            assert forall|id: ShortEventId| short_ids(vs).contains(id) implies short_ids(prev).insert(
                v.spec_short_id(),
            ).contains(id) by {
                let i = choose|i: int| 0 <= i < vs.len() && (#[trigger] vs[i]).spec_short_id() == id;
                if i < n {
                    assert(prev[i] == vs[i]);
                }
            }
            assert forall|id: ShortEventId| short_ids(prev).contains(id) implies short_ids(vs).contains(id) by {
                let i = choose|i: int| 0 <= i < prev.len() && (#[trigger] prev[i]).spec_short_id() == id;
                assert(prev[i] == vs[i]);
            }
        }
    }
}

/// After inserting any sequence of events, in any order, into an empty
/// database, the stored events are those of the sequence, and the missing
/// set of each author `a` holds exactly the non-zero parents that stored
/// events of `a` name and that are not stored. Events of several authors
/// may be mixed, as long as none names an event of another author of the
/// sequence.
pub proof fn lemma_missing_parent_closure(d: DbView, a: RostraId, vs: Seq<VerifiedEvent>)
    requires
        d.events.is_empty(),
        d.missing.is_empty(),
        d.heads.is_empty(),
        no_cross_author_parents(vs),
    ensures
        spec_insert_events(d, vs).events.dom() == short_ids(vs),
        forall|p: ShortEventId|
            #[trigger] spec_insert_events(d, vs).missing.contains_key(AuthorEventKey { author: a, event_id: p })
                <==> (!p.spec_is_zero() && !spec_insert_events(d, vs).events.contains_key(p)
                && has_stored_child(spec_insert_events(d, vs), a, p)),
{
    lemma_insert_events_inv(d, vs);
    let d2 = spec_insert_events(d, vs);
    assert forall|p: ShortEventId|
        #[trigger] d2.missing.contains_key(AuthorEventKey { author: a, event_id: p }) <==> (!p.spec_is_zero()
            && !d2.events.contains_key(p) && has_stored_child(d2, a, p)) by {
        assert(missing_closed(d2));
        let k = AuthorEventKey { author: a, event_id: p };
        assert(d2.missing.contains_key(k) <==> (!k.event_id.spec_is_zero() && !d2.events.contains_key(
            k.event_id,
        ) && has_stored_child(d2, k.author, k.event_id)));
    }
}

/// After inserting any sequence of events into an empty database, the
/// heads of each author `a` are exactly its stored events that no other
/// stored event of `a` names as `parent_prev` or `parent_aux`, where no
/// event names an event of another author of the sequence.
pub proof fn lemma_heads_correct(d: DbView, a: RostraId, vs: Seq<VerifiedEvent>)
    requires
        d.events.is_empty(),
        d.missing.is_empty(),
        d.heads.is_empty(),
        no_cross_author_parents(vs),
    ensures
        forall|h: ShortEventId|
            #[trigger] spec_insert_events(d, vs).heads.contains_key(AuthorEventKey { author: a, event_id: h })
                <==> (spec_insert_events(d, vs).events.contains_key(h)
                && spec_insert_events(d, vs).events[h].signed.event.author == a && !has_stored_child(
                spec_insert_events(d, vs),
                a,
                h,
            )),
{
    lemma_insert_events_inv(d, vs);
    let d2 = spec_insert_events(d, vs);
    assert forall|h: ShortEventId|
        #[trigger] d2.heads.contains_key(AuthorEventKey { author: a, event_id: h }) <==> (d2.events.contains_key(h)
            && d2.events[h].signed.event.author == a && !has_stored_child(d2, a, h)) by {
        let k = AuthorEventKey { author: a, event_id: h };
        assert(d2.heads.contains_key(k) <==> (d2.events.contains_key(k.event_id)
            && d2.events[k.event_id].signed.event.author == k.author && !has_stored_child(
            d2,
            k.author,
            k.event_id,
        )));
    }
}

/// The record under which an event is stored.
pub open spec fn record_of(v: VerifiedEvent) -> crate::db::EventRecord {
    crate::db::EventRecord { signed: crate::event::SignedEvent { event: v.spec_event(), sig: v.spec_sig() } }
}

proof fn lemma_stored_records(d: DbView, vs: Seq<VerifiedEvent>)
    requires
        d.events.is_empty(),
    ensures
        forall|id: ShortEventId|
            #[trigger] spec_insert_events(d, vs).events.contains_key(id) ==> exists|i: int|
                0 <= i < vs.len() && vs[i].spec_short_id() == id && spec_insert_events(d, vs).events[id]
                    == record_of(vs[i]),
    decreases vs.len(),
{
    if vs.len() > 0 {
        let prev = vs.drop_last();
        lemma_stored_records(d, prev);
        let dp = spec_insert_events(d, prev);
        let v = vs.last();
        let d2 = spec_insert_events(d, vs);
        if !dp.events.contains_key(v.spec_short_id()) {
            lemma_insert_shape(dp, v);
        }
        assert forall|id: ShortEventId| #[trigger] d2.events.contains_key(id) implies exists|i: int|
            0 <= i < vs.len() && vs[i].spec_short_id() == id && d2.events[id] == record_of(vs[i]) by {
            if dp.events.contains_key(id) {
                let i = choose|i: int|
                    0 <= i < prev.len() && prev[i].spec_short_id() == id && dp.events[id] == record_of(prev[i]);
                assert(vs[i] == prev[i]);
            } else {
                assert(vs[vs.len() - 1] == v);
            }
        }
    }
}

/// Inserting the same events into an empty database in two orders leaves
/// the same stored events, and the same missing parents and heads of each
/// author `a`, where no two of the events share a short id and none names
/// an event of another author.
pub proof fn lemma_insert_order_independent(
    d: DbView,
    a: RostraId,
    vs1: Seq<VerifiedEvent>,
    vs2: Seq<VerifiedEvent>,
)
    requires
        d.events.is_empty(),
        d.missing.is_empty(),
        d.heads.is_empty(),
        vs1.to_set() == vs2.to_set(),
        no_cross_author_parents(vs1),
        forall|v: VerifiedEvent, w: VerifiedEvent|
            #[trigger] vs1.contains(v) && #[trigger] vs1.contains(w) && v.spec_short_id() == w.spec_short_id()
                ==> v == w,
    ensures
        spec_insert_events(d, vs1).events == spec_insert_events(d, vs2).events,
        forall|p: ShortEventId|
            #[trigger] spec_insert_events(d, vs1).missing.contains_key(AuthorEventKey { author: a, event_id: p })
                == spec_insert_events(d, vs2).missing.contains_key(AuthorEventKey { author: a, event_id: p }),
        forall|h: ShortEventId|
            #[trigger] spec_insert_events(d, vs1).heads.contains_key(AuthorEventKey { author: a, event_id: h })
                == spec_insert_events(d, vs2).heads.contains_key(AuthorEventKey { author: a, event_id: h }),
{
    let d1 = spec_insert_events(d, vs1);
    let d2 = spec_insert_events(d, vs2);
    assert(no_cross_author_parents(vs2)) by {
        assert forall|i: int, j: int|
            0 <= i < vs2.len() && 0 <= j < vs2.len() && (#[trigger] vs2[i]).spec_event().author != (
            #[trigger] vs2[j]).spec_event().author implies !names_parent(
            vs2[i].spec_event(),
            vs2[j].spec_short_id(),
        ) by {
            assert(vs2.to_set().contains(vs2[i]));
            assert(vs2.to_set().contains(vs2[j]));
            let k = choose|k: int| 0 <= k < vs1.len() && vs1[k] == vs2[i];
            let l = choose|l: int| 0 <= l < vs1.len() && vs1[l] == vs2[j];
            assert(vs1[k].spec_event().author != vs1[l].spec_event().author);
        }
    }
    lemma_missing_parent_closure(d, a, vs1);
    lemma_missing_parent_closure(d, a, vs2);
    lemma_heads_correct(d, a, vs1);
    lemma_heads_correct(d, a, vs2);
    lemma_stored_records(d, vs1);
    lemma_stored_records(d, vs2);
    assert(short_ids(vs1) =~= short_ids(vs2)) by {
        assert forall|id: ShortEventId| short_ids(vs1).contains(id) implies short_ids(vs2).contains(id) by {
            let i = choose|i: int| 0 <= i < vs1.len() && (#[trigger] vs1[i]).spec_short_id() == id;
            assert(vs1.to_set().contains(vs1[i]));
            let k = choose|k: int| 0 <= k < vs2.len() && vs2[k] == vs1[i];
            assert(vs2[k].spec_short_id() == id);
        }
        assert forall|id: ShortEventId| short_ids(vs2).contains(id) implies short_ids(vs1).contains(id) by {
            let i = choose|i: int| 0 <= i < vs2.len() && (#[trigger] vs2[i]).spec_short_id() == id;
            assert(vs2.to_set().contains(vs2[i]));
            let k = choose|k: int| 0 <= k < vs1.len() && vs1[k] == vs2[i];
            assert(vs1[k].spec_short_id() == id);
        }
    }
    assert(d1.events =~= d2.events) by {
        assert forall|id: ShortEventId| #[trigger] d1.events.contains_key(id) implies d1.events[id]
            == d2.events[id] by {
            assert(d1.events.dom().contains(id));
            assert(d2.events.dom().contains(id));
            let i = choose|i: int|
                0 <= i < vs1.len() && vs1[i].spec_short_id() == id && d1.events[id] == record_of(vs1[i]);
            let j = choose|j: int|
                0 <= j < vs2.len() && vs2[j].spec_short_id() == id && d2.events[id] == record_of(vs2[j]);
            assert(vs2.to_set().contains(vs2[j]));
            assert(vs1.contains(vs1[i]));
            assert(vs1.contains(vs2[j]));
        }
    }
}

} // verus!
