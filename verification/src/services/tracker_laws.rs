use crate::services::message_counts::total_messages;
use crate::services::message_lists::{
    holds_id, ids_distinct, lemma_filter_combine, lemma_filter_from_list, lemma_filter_keeps_all,
    lemma_filter_push, lemma_remove_is_filter, other_than,
};
use crate::services::message_tracker::{
    fresh_at, messages_of, model_add, model_cleanup, model_remove_at, model_remove_message,
    model_retain, model_wf, not_listed, tracks_id, TrackerModel, SCANNED_IDS_LIMIT,
};
use crate::types::TrackedMessage;
use vstd::prelude::*;

verus! {

/// Adding a message that is new to a user, while the tracker is under its global
/// limit, puts it last in the user's list; no other user's messages change.
pub proof fn law_add_then_get(s: TrackerModel, user: u64, msg: TrackedMessage)
    requires
        model_wf(s),
        total_messages(s.messages) < s.max_total_messages,
        !holds_id(messages_of(s, user), msg.message_id),
    ensures
        ({
            let t = model_add(s, user, msg, false);
            &&& messages_of(t, user).last() == msg
            &&& messages_of(t, user).len() == if messages_of(s, user).len() < s.max_messages_per_user {
                messages_of(s, user).len() + 1int
            } else {
                messages_of(s, user).len() as int
            }
            &&& forall|other: u64| other != user ==> #[trigger] messages_of(t, other) == messages_of(s, other)
        }),
{
}

/// A user at the per-user limit loses the message handed in first when a new
/// one comes in.
pub proof fn law_full_user_drops_first_added(s: TrackerModel, user: u64, msg: TrackedMessage)
    requires
        model_wf(s),
        total_messages(s.messages) < s.max_total_messages,
        !holds_id(messages_of(s, user), msg.message_id),
        messages_of(s, user).len() == s.max_messages_per_user,
    ensures
        messages_of(model_add(s, user, msg, false), user) == messages_of(s, user).drop_first().push(msg),
{
}

/// Adding a message that the user already has changes nothing; neither does
/// handing in again, from a scan, a message that a scan already handed in.
pub proof fn law_known_message_is_ignored(s: TrackerModel, user: u64, msg: TrackedMessage)
    ensures
        holds_id(messages_of(s, user), msg.message_id) ==> model_add(s, user, msg, false) == s,
        s.scanned.contains(msg.message_id) ==> model_add(s, user, msg, true) == s,
{
    if holds_id(messages_of(s, user), msg.message_id) && !(total_messages(s.messages) >= s.max_total_messages) {
        assert(model_add(s, user, msg, false) == TrackerModel { scanned: s.scanned, ..s });
    }
}

/// Adding the same message twice has the effect of adding it once.
pub proof fn law_add_is_idempotent(s: TrackerModel, user: u64, msg: TrackedMessage, from_scan: bool)
    ensures
        model_add(model_add(s, user, msg, from_scan), user, msg, from_scan) == model_add(
            s,
            user,
            msg,
            from_scan,
        ),
{
    let t = model_add(s, user, msg, from_scan);
    if from_scan && s.scanned.contains(msg.message_id) {
    } else if total_messages(s.messages) >= s.max_total_messages {
    } else {
        let existing = messages_of(s, user);
        if holds_id(existing, msg.message_id) {
            assert(messages_of(t, user) == existing);
            if from_scan {
                assert(t.scanned.contains(msg.message_id));
            }
        } else {
            let list = messages_of(t, user);
            assert(list[list.len() - 1] == msg);
            assert(holds_id(list, msg.message_id));
            if from_scan {
                assert(t.scanned.contains(msg.message_id));
            } else {
                assert(model_add(t, user, msg, false) == TrackerModel { scanned: t.scanned, ..t });
            }
        }
    }
}

/// Removing a message undoes adding it, when no user held it before and the
/// add made no room by dropping another message.
pub proof fn law_remove_undoes_add(s: TrackerModel, user: u64, msg: TrackedMessage, t: TrackerModel)
    requires
        model_wf(s),
        !tracks_id(s, msg.message_id),
        total_messages(s.messages) < s.max_total_messages,
        messages_of(s, user).len() < s.max_messages_per_user,
        model_remove_message(model_add(s, user, msg, false), msg.message_id, t),
    ensures
        t == s,
{
    let id = msg.message_id;
    let existing = messages_of(s, user);
    assert(!holds_id(existing, id)) by {
        if holds_id(existing, id) {
            assert(s.messages.contains_key(user));
        }
    }
    let a = model_add(s, user, msg, false);
    let list = existing.push(msg);
    assert(a.messages == s.messages.insert(user, list));
    assert(a.messages[user][existing.len() as int].message_id == id);
    assert(tracks_id(a, id));
    let (u2, i) = choose|u2: u64, i: int|
        a.messages.contains_key(u2) && 0 <= i < a.messages[u2].len()
            && #[trigger] a.messages[u2][i].message_id == id && t == model_remove_at(a, u2, i);
    if u2 != user {
        assert(s.messages.contains_key(u2) && holds_id(s.messages[u2], id));
        assert(false);
    }
    if i < existing.len() {
        assert(list[i] == existing[i]);
        assert(false);
    }
    assert(list.remove(i) =~= existing);
    if existing.len() == 0 {
        assert(!s.messages.contains_key(user));
        assert(t.messages =~= s.messages);
    } else {
        assert(t.messages =~= s.messages);
    }
}

/// Filtering twice by the same rule filters once.
proof fn lemma_filter_twice(s: Seq<TrackedMessage>, keep: spec_fn(TrackedMessage) -> bool)
    ensures
        s.filter(keep).filter(keep) == s.filter(keep),
    decreases s.len(),
{
    if s.len() == 0 {
        reveal(Seq::filter);
        assert(s.filter(keep) =~= Seq::<TrackedMessage>::empty());
    } else {
        let p = s.drop_last();
        let x = s.last();
        assert(p.push(x) =~= s);
        lemma_filter_twice(p, keep);
        lemma_filter_push(p, x, keep);
        if keep(x) {
            lemma_filter_push(p.filter(keep), x, keep);
        }
    }
}

/// A second cleanup at the same time changes nothing.
pub proof fn law_cleanup_is_idempotent(s: TrackerModel, now: int)
    requires
        model_wf(s),
    ensures
        model_cleanup(model_cleanup(s, now), now) == model_cleanup(s, now),
{
    let c = model_cleanup(s, now);
    let keep = fresh_at(now, s.retention_period);
    let c2 = model_cleanup(c, now);
    assert forall|u: u64| #[trigger] c.messages.contains_key(u) implies c.messages[u].filter(keep)
        == c.messages[u] by {
        lemma_filter_twice(s.messages[u], keep);
    }
    assert(c2.messages =~= c.messages);
    assert(c.scanned.len() <= SCANNED_IDS_LIMIT) by {
        if s.scanned.len() > SCANNED_IDS_LIMIT {
            assert(c.scanned == Set::<u64>::empty());
        }
    }
    assert(c2.scanned == c.scanned);
}

/// After a cleanup at time `now`, every message left is younger than the
/// retention period, and every message of the tracker that was is still there.
pub proof fn law_cleanup_keeps_exactly_fresh(s: TrackerModel, now: int)
    ensures
        ({
            let c = model_cleanup(s, now);
            &&& forall|u: u64, i: int|
                c.messages.contains_key(u) && 0 <= i < c.messages[u].len() ==> now
                    - #[trigger] c.messages[u][i].timestamp < s.retention_period
            &&& forall|u: u64, i: int|
                s.messages.contains_key(u) && 0 <= i < s.messages[u].len() && now
                    - #[trigger] s.messages[u][i].timestamp < s.retention_period
                    ==> c.messages.contains_key(u) && c.messages[u].contains(s.messages[u][i])
        }),
{
    let c = model_cleanup(s, now);
    let keep = fresh_at(now, s.retention_period);
    assert forall|u: u64, i: int|
        c.messages.contains_key(u) && 0 <= i < c.messages[u].len() implies now
        - #[trigger] c.messages[u][i].timestamp < s.retention_period by {
        s.messages[u].lemma_filter_pred(keep, i);
    }
    assert forall|u: u64, i: int|
        s.messages.contains_key(u) && 0 <= i < s.messages[u].len() && now
            - #[trigger] s.messages[u][i].timestamp < s.retention_period implies c.messages.contains_key(u)
        && c.messages[u].contains(s.messages[u][i]) by {
        s.messages[u].lemma_filter_contains(keep, i);
    }
}

/// After a bulk removal no user holds a listed message, and every message that
/// was not listed is still there.
pub proof fn law_bulk_remove_forgets_listed(s: TrackerModel, ids: Set<u64>)
    ensures
        ({
            let t = model_retain(s, not_listed(ids));
            &&& forall|id: u64| #[trigger] ids.contains(id) ==> !tracks_id(t, id)
            &&& forall|u: u64, i: int|
                s.messages.contains_key(u) && 0 <= i < s.messages[u].len() && !ids.contains(
                    #[trigger] s.messages[u][i].message_id,
                ) ==> t.messages.contains_key(u) && t.messages[u].contains(s.messages[u][i])
        }),
{
    let t = model_retain(s, not_listed(ids));
    let keep = not_listed(ids);
    assert forall|id: u64| #[trigger] ids.contains(id) implies !tracks_id(t, id) by {
        if tracks_id(t, id) {
            let u = choose|u: u64| t.messages.contains_key(u) && holds_id(#[trigger] t.messages[u], id);
            let i = choose|i: int| 0 <= i < t.messages[u].len() && t.messages[u][i].message_id == id;
            s.messages[u].lemma_filter_pred(keep, i);
        }
    }
    assert forall|u: u64, i: int|
        s.messages.contains_key(u) && 0 <= i < s.messages[u].len() && !ids.contains(
            #[trigger] s.messages[u][i].message_id,
        ) implies t.messages.contains_key(u) && t.messages[u].contains(s.messages[u][i]) by {
        s.messages[u].lemma_filter_contains(keep, i);
    }
}

/// Whether at most one user of `s` holds a message with id `id`.
pub open spec fn held_by_at_most_one(s: TrackerModel, id: u64) -> bool {
    forall|u1: u64, u2: u64|
        s.messages.contains_key(u1) && s.messages.contains_key(u2) && #[trigger] holds_id(
            s.messages[u1],
            id,
        ) && #[trigger] holds_id(s.messages[u2], id) ==> u1 == u2
}

/// A bulk removal of `ids` ends where removing them one by one, in order, ends,
/// when each of the ids is held by at most one user. `states` are the states
/// that the single removals pass through.
pub proof fn law_bulk_remove_is_single_removes(s: TrackerModel, ids: Seq<u64>, states: Seq<TrackerModel>)
    requires
        model_wf(s),
        states.len() == ids.len() + 1,
        states[0] == s,
        forall|k: int| 0 <= k < ids.len() ==> model_remove_message(states[k], #[trigger] ids[k], states[k + 1]),
        forall|k: int| 0 <= k < ids.len() ==> held_by_at_most_one(s, #[trigger] ids[k]),
    ensures
        states[ids.len() as int] == model_retain(s, not_listed(ids.to_set())),
{
    lemma_bulk_remove_prefix(s, ids, states, ids.len() as int);
    assert(ids.take(ids.len() as int) =~= ids);
}

proof fn lemma_bulk_remove_prefix(s: TrackerModel, ids: Seq<u64>, states: Seq<TrackerModel>, k: int)
    requires
        model_wf(s),
        states.len() == ids.len() + 1,
        states[0] == s,
        forall|k: int| 0 <= k < ids.len() ==> model_remove_message(states[k], #[trigger] ids[k], states[k + 1]),
        forall|k: int| 0 <= k < ids.len() ==> held_by_at_most_one(s, #[trigger] ids[k]),
        0 <= k <= ids.len(),
    ensures
        states[k] == model_retain(s, not_listed(ids.take(k).to_set())),
    decreases k,
{
    if k == 0 {
        let r = model_retain(s, not_listed(ids.take(0).to_set()));
        assert(ids.take(0).to_set() =~= Set::<u64>::empty());
        assert forall|u: u64| #[trigger] s.messages.contains_key(u) implies s.messages[u].filter(
            not_listed(ids.take(0).to_set()),
        ) == s.messages[u] by {
            lemma_filter_keeps_all(s.messages[u], not_listed(ids.take(0).to_set()));
        }
        assert(r.messages =~= s.messages);
    } else {
        lemma_bulk_remove_prefix(s, ids, states, k - 1);
        let id = ids[k - 1];
        let a = ids.take(k - 1).to_set();
        let a2 = ids.take(k).to_set();
        assert(ids.take(k) =~= ids.take(k - 1).push(id));
        ids.take(k - 1).lemma_push_to_set_commute(id);
        assert(a2 =~= a.insert(id));
        let r = model_retain(s, not_listed(a));
        let r2 = model_retain(s, not_listed(a2));
        assert(states[k - 1] == r);
        assert(model_remove_message(r, id, states[k]));
        assert(held_by_at_most_one(s, id));
        // Filtering by the new set is filtering by the old one, then by the id.
        assert forall|u: u64| #[trigger] s.messages.contains_key(u) implies s.messages[u].filter(
            not_listed(a2),
        ) == s.messages[u].filter(not_listed(a)).filter(other_than(id)) by {
            lemma_filter_combine(s.messages[u], not_listed(a), other_than(id), not_listed(a2));
        }
        assert forall|u: u64| #[trigger] s.messages.contains_key(u) && !r.messages.contains_key(u)
            implies s.messages[u].filter(not_listed(a2)).len() == 0 by {
            lemma_filter_from_list(s.messages[u].filter(not_listed(a)), other_than(id));
        }
        // Lists without the id are left as they are by the second filter.
        assert forall|w: u64| #[trigger] r.messages.contains_key(w) && !holds_id(r.messages[w], id) implies
            r.messages[w].filter(other_than(id)) == r.messages[w] by {
            assert forall|j: int| 0 <= j < r.messages[w].len() implies (other_than(id))(
                #[trigger] r.messages[w][j],
            ) by {}
            lemma_filter_keeps_all(r.messages[w], other_than(id));
        }
        // A list of `r` that holds the id comes from a list of `s` that holds it.
        assert forall|w: u64| #[trigger] r.messages.contains_key(w) && holds_id(r.messages[w], id) implies
            holds_id(s.messages[w], id) by {
            lemma_filter_from_list(s.messages[w], not_listed(a));
            let j = choose|j: int| 0 <= j < r.messages[w].len() && r.messages[w][j].message_id == id;
            assert(s.messages[w].contains(r.messages[w][j]));
        }
        if tracks_id(r, id) {
            let (u0, i) = choose|u0: u64, i: int|
                r.messages.contains_key(u0) && 0 <= i < r.messages[u0].len()
                    && #[trigger] r.messages[u0][i].message_id == id && states[k] == model_remove_at(r, u0, i);
            lemma_filter_from_list(s.messages[u0], not_listed(a));
            lemma_remove_is_filter(r.messages[u0], i);
            assert(holds_id(r.messages[u0], id));
            assert(holds_id(s.messages[u0], id));
            assert forall|w: u64| #[trigger] r.messages.contains_key(w) && w != u0 implies !holds_id(
                r.messages[w],
                id,
            ) by {
                if holds_id(r.messages[w], id) {
                    assert(holds_id(s.messages[w], id));
                }
            }
            assert(states[k].messages =~= r2.messages);
        } else {
            assert(states[k] == r);
            assert(r.messages =~= r2.messages);
        }
    }
}

/// Once a scan has handed in a message id, the tracker remembers it until a
/// cleanup finds too many remembered ids: a scanned add that the global limit
/// does not stop remembers the id; removals and adds never forget one; and a
/// cleanup forgets none while there are at most `SCANNED_IDS_LIMIT` of them.
pub proof fn law_scanned_ids_persist(
    s: TrackerModel,
    user: u64,
    msg: TrackedMessage,
    from_scan: bool,
    id: u64,
    t: TrackerModel,
    keep: spec_fn(TrackedMessage) -> bool,
    now: int,
)
    ensures
        total_messages(s.messages) < s.max_total_messages || s.scanned.contains(msg.message_id)
            ==> model_add(s, user, msg, true).scanned.contains(msg.message_id),
        s.scanned.subset_of(model_add(s, user, msg, from_scan).scanned),
        model_remove_message(s, id, t) ==> t.scanned == s.scanned,
        model_retain(s, keep).scanned == s.scanned,
        s.scanned.len() <= SCANNED_IDS_LIMIT ==> model_cleanup(s, now).scanned == s.scanned,
{
}

} // verus!
