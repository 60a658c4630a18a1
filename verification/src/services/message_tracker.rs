use crate::services::message_counts::{
    count_over, lemma_count_over_le, lemma_count_over_pick, lemma_count_over_subset, lemma_total_after_insert,
    lemma_total_after_remove, total_messages,
};
use crate::services::message_lists::{holds_id, ids_distinct, lemma_filter_from_list, lemma_filter_push};
use crate::clock::current_time_millis;
use std::mem::swap;
use crate::types::{TrackedMessage, UserMessages};
use std::collections::HashSet;
use vstd::prelude::*;

verus! {

broadcast use vstd::std_specs::hash::group_hash_axioms;

/// How long a message stays tracked: 48 hours, in milliseconds.
pub const RETENTION_PERIOD_MS: i64 = 48 * 60 * 60 * 1000;

/// The most messages tracked for any one user.
pub const MAX_MESSAGES_PER_USER: usize = 1000;

/// The most messages tracked over all users together.
pub const MAX_TOTAL_MESSAGES: usize = 50000;

/// How often the tracker is cleaned up, in seconds (30 minutes).
pub const CLEANUP_INTERVAL_SECS: u64 = 1800;

/// Above this many remembered scan ids, a cleanup forgets them all.
pub const SCANNED_IDS_LIMIT: usize = 10000;

/// What a tracker holds, as mathematical values.
pub struct TrackerModel {
    /// Each user's messages, in the order they were handed in.
    pub messages: Map<u64, Seq<TrackedMessage>>,
    /// Ids of messages that a history scan has already handed in.
    pub scanned: Set<u64>,
    pub retention_period: int,
    pub max_messages_per_user: nat,
    pub max_total_messages: nat,
}

/// The invariant of every tracker: the 48-hour retention period and the limits
/// of 1000 messages per user and 50000 in all; finitely many users, each with
/// at least one and at most the per-user limit of messages, no id twice for one
/// user, and no more messages in all than the global limit.
pub open spec fn model_wf(s: TrackerModel) -> bool {
    &&& s.retention_period == RETENTION_PERIOD_MS
    &&& s.max_messages_per_user == MAX_MESSAGES_PER_USER
    &&& s.max_total_messages == MAX_TOTAL_MESSAGES
    &&& s.messages.dom().finite()
    &&& forall|u: u64| #[trigger]
        s.messages.contains_key(u) ==> {
            &&& 0 < s.messages[u].len() <= s.max_messages_per_user
            &&& ids_distinct(s.messages[u])
        }
    &&& total_messages(s.messages) <= s.max_total_messages
}

/// The messages of `user`, or none if the tracker holds none for them.
pub open spec fn messages_of(s: TrackerModel, user: u64) -> Seq<TrackedMessage> {
    if s.messages.contains_key(user) {
        s.messages[user]
    } else {
        Seq::empty()
    }
}

/// What adding `msg` for `user` makes of `s`. A message that a scan already
/// handed in is ignored when it comes from a scan again; nothing is added once
/// the global limit is reached; a message whose id the user already has is not
/// added again (but a scan remembers its id); a user at the per-user limit loses
/// the message handed in first, to make room.
pub open spec fn model_add(s: TrackerModel, user: u64, msg: TrackedMessage, from_scan: bool) -> TrackerModel {
    if from_scan && s.scanned.contains(msg.message_id) {
        s
    } else if total_messages(s.messages) >= s.max_total_messages {
        s
    } else {
        let existing = messages_of(s, user);
        let scanned = if from_scan { s.scanned.insert(msg.message_id) } else { s.scanned };
        if holds_id(existing, msg.message_id) {
            TrackerModel { scanned, ..s }
        } else {
            let kept = if existing.len() >= s.max_messages_per_user {
                existing.drop_first()
            } else {
                existing
            };
            TrackerModel { messages: s.messages.insert(user, kept.push(msg)), scanned, ..s }
        }
    }
}

/// Keeps the messages whose id is not in `ids`.
pub open spec fn not_listed(ids: Set<u64>) -> spec_fn(TrackedMessage) -> bool {
    |m: TrackedMessage| !ids.contains(m.message_id)
}

/// Keeps the messages younger, at time `now`, than `retention`.
pub open spec fn fresh_at(now: int, retention: int) -> spec_fn(TrackedMessage) -> bool {
    |m: TrackedMessage| now - m.timestamp < retention
}

/// `s` with each user's list filtered by `keep`; users left with nothing are dropped.
pub open spec fn model_retain(s: TrackerModel, keep: spec_fn(TrackedMessage) -> bool) -> TrackerModel {
    TrackerModel {
        messages: Map::new(
            |u: u64| s.messages.contains_key(u) && s.messages[u].filter(keep).len() > 0,
            |u: u64| s.messages[u].filter(keep),
        ),
        ..s
    }
}

/// The (message id, channel id) pair of each message in `msgs`, in order.
pub open spec fn id_pairs(msgs: Seq<TrackedMessage>) -> Seq<(u64, u64)> {
    Seq::new(msgs.len(), |i: int| (msgs[i].message_id, msgs[i].channel_id))
}

/// What a cleanup at time `now` makes of `s`: every message as old as the
/// retention period or older is dropped, users left with nothing are dropped,
/// and the remembered scan ids are forgotten once there are more than
/// `SCANNED_IDS_LIMIT` of them.
pub open spec fn model_cleanup(s: TrackerModel, now: int) -> TrackerModel {
    let r = model_retain(s, fresh_at(now, s.retention_period));
    TrackerModel {
        scanned: if s.scanned.len() > SCANNED_IDS_LIMIT { Set::empty() } else { s.scanned },
        ..r
    }
}

/// `s` with `user`'s message at index `i` taken out; a user left with nothing is dropped.
pub open spec fn model_remove_at(s: TrackerModel, user: u64, i: int) -> TrackerModel {
    let rest = s.messages[user].remove(i);
    TrackerModel {
        messages: if rest.len() == 0 {
            s.messages.remove(user)
        } else {
            s.messages.insert(user, rest)
        },
        ..s
    }
}

/// Whether some user in `s` holds a message with id `id`.
pub open spec fn tracks_id(s: TrackerModel, id: u64) -> bool {
    exists|u: u64| s.messages.contains_key(u) && holds_id(#[trigger] s.messages[u], id)
}

/// Whether `t` is what removing message `id` may make of `s`: when some user
/// holds it, one such user loses it (which one, when several do, depends on the
/// order in which the map is walked); otherwise nothing changes.
pub open spec fn model_remove_message(s: TrackerModel, id: u64, t: TrackerModel) -> bool {
    if tracks_id(s, id) {
        exists|u: u64, i: int|
            s.messages.contains_key(u) && 0 <= i < s.messages[u].len()
                && #[trigger] s.messages[u][i].message_id == id && t == model_remove_at(s, u, i)
    } else {
        t == s
    }
}

/// Which messages a pass over the tracker keeps.
enum KeepRule {
    NotListed(HashSet<u64>),
    FreshAt { now: i64, retention: i64 },
}

impl KeepRule {
    spec fn pred(&self) -> spec_fn(TrackedMessage) -> bool {
        match self {
            KeepRule::NotListed(ids) => not_listed(ids@),
            KeepRule::FreshAt { now, retention } => fresh_at(*now as int, *retention as int),
        }
    }

    fn keeps(&self, m: &TrackedMessage) -> (b: bool)
        ensures
            b == (self.pred())(*m),
    {
        match self {
            KeepRule::NotListed(ids) => !ids.contains(&m.message_id),
            KeepRule::FreshAt { now, retention } => {
                (*now as i128) - (m.timestamp as i128) < (*retention as i128)
            },
        }
    }

    /// The messages of `msgs` that this rule keeps, in order.
    fn filter(&self, msgs: &Vec<TrackedMessage>) -> (kept: Vec<TrackedMessage>)
        ensures
            kept@ == msgs@.filter(self.pred()),
    {
        let mut kept: Vec<TrackedMessage> = Vec::new();
        let mut i: usize = 0;
        while i < msgs.len()
            invariant
                i <= msgs.len(),
                kept@ == msgs@.take(i as int).filter(self.pred()),
            decreases msgs.len() - i,
        {
            let m = msgs[i];
            proof {
                assert(msgs@.take(i + 1) =~= msgs@.take(i as int).push(m));
                lemma_filter_push(msgs@.take(i as int), m, self.pred());
            }
            if self.keeps(&m) {
                kept.push(m);
            }
            i = i + 1;
        }
        assert(msgs@.take(msgs.len() as int) =~= msgs@);
        kept
    }
}

/// The fields of a tracker, which its operations work on.
struct TrackerState {
    messages: UserMessages,
    retention_period: i64,
    max_messages_per_user: usize,
    max_total_messages: usize,
    scanned_message_ids: HashSet<u64>,
}

impl View for TrackerState {
    type V = TrackerModel;

    closed spec fn view(&self) -> TrackerModel {
        TrackerModel {
            messages: self.messages@.map_values(|v: Vec<TrackedMessage>| v@),
            scanned: self.scanned_message_ids@,
            retention_period: self.retention_period as int,
            max_messages_per_user: self.max_messages_per_user as nat,
            max_total_messages: self.max_total_messages as nat,
        }
    }
}

impl TrackerState {
    /// The tracker's invariant.
    spec fn wf(&self) -> bool {
        model_wf(self@)
    }

    /// An empty tracker with the 48-hour retention period and the default limits.
    fn new() -> (t: Self)
        ensures
            t.wf(),
            t@.messages == Map::<u64, Seq<TrackedMessage>>::empty(),
            t@.scanned == Set::<u64>::empty(),
            t@.retention_period == RETENTION_PERIOD_MS,
            t@.max_messages_per_user == MAX_MESSAGES_PER_USER,
            t@.max_total_messages == MAX_TOTAL_MESSAGES,
    {
        let t = Self {
            messages: UserMessages::new(),
            retention_period: RETENTION_PERIOD_MS,
            max_messages_per_user: MAX_MESSAGES_PER_USER,
            max_total_messages: MAX_TOTAL_MESSAGES,
            scanned_message_ids: HashSet::new(),
        };
        assert(t@.messages =~= Map::<u64, Seq<TrackedMessage>>::empty());
        assert(t@.messages.dom() =~= Set::<u64>::empty());
        t
    }

    /// The ids of all users with tracked messages, each once.
    fn user_ids(&self) -> (ids: Vec<u64>)
        ensures
            ids@.to_set() == self.messages@.dom(),
            ids@.no_duplicates(),
    {
        let mut ids: Vec<u64> = Vec::new();
        for k in it: self.messages.keys()
            invariant
                ids@ == it.seq().take(it.index()).unref(),
                it.seq().unref().to_set() == self.messages@.dom(),
                it.seq().unref().no_duplicates(),
                it.index() == it.seq().len() ==> {
                    &&& ids@.to_set() == self.messages@.dom()
                    &&& ids@.no_duplicates()
                },
        {
            ids.push(*k);
            assert(ids@ =~= it.seq().take(it.index() + 1).unref());
            assert(it.seq().take(it.seq().len() as int) =~= it.seq());
        }
        ids
    }

    /// Links the model's map to the stored one.
    proof fn lemma_view_messages(&self)
        ensures
            self@.messages.dom() == self.messages@.dom(),
            forall|u: u64| #[trigger]
                self.messages@.contains_key(u) ==> self@.messages[u] == self.messages@[u]@,
    {
        assert(self@.messages.dom() =~= self.messages@.dom());
    }

    /// How many messages the tracker holds over all users.
    fn total_message_count(&self) -> (total: usize)
        requires
            self.wf(),
        ensures
            total == total_messages(self@.messages),
    {
        let ids = self.user_ids();
        let ghost m = self@.messages;
        proof {
            self.lemma_view_messages();
        }
        let mut total: usize = 0;
        let mut i: usize = 0;
        while i < ids.len()
            invariant
                self.wf(),
                m == self@.messages,
                m.dom() == self.messages@.dom(),
                forall|u: u64| #[trigger]
                    self.messages@.contains_key(u) ==> m[u] == self.messages@[u]@,
                ids@.to_set() == m.dom(),
                ids@.no_duplicates(),
                i <= ids.len(),
                total == count_over(m, ids@.take(i as int).to_set()),
            decreases ids.len() - i,
        {
            let u = ids[i];
            assert(ids@.to_set().contains(u));
            let n: usize = match self.messages.get(&u) {
                Some(v) => v.len(),
                None => 0,
            };
            proof {
                let before = ids@.take(i as int).to_set();
                let after = ids@.take(i + 1).to_set();
                assert(ids@.take(i + 1) =~= ids@.take(i as int).push(u));
                ids@.take(i as int).lemma_push_to_set_commute(u);
                assert(after =~= before.insert(u));
                assert(!before.contains(u)) by {
                    if before.contains(u) {
                        let j = choose|j: int| 0 <= j < i && ids@.take(i as int)[j] == u;
                        assert(ids@[j] == ids@[i as int]);
                    }
                }
                lemma_count_over_pick(m, after, u);
                assert(after.remove(u) =~= before);
                assert(after.subset_of(m.dom()));
                lemma_count_over_subset(m, after, m.dom());
            }
            total = total + n;
            i = i + 1;
        }
        assert(ids@.take(ids.len() as int) =~= ids@);
        total
    }

    /// Tracks a message that was just posted.
    fn add_message(&mut self, user_id: u64, message_id: u64, channel_id: u64, timestamp: i64)
        requires
            old(self).wf(),
        ensures
            final(self).wf(),
            final(self)@ == model_add(
                old(self)@,
                user_id,
                TrackedMessage { message_id, channel_id, timestamp },
                false,
            ),
    {
        self.add_message_internal(user_id, message_id, channel_id, timestamp, false);
    }

    /// Tracks a message found by a history scan; one that a scan already
    /// handed in is ignored.
    fn add_message_from_scan(
        &mut self,
        user_id: u64,
        message_id: u64,
        channel_id: u64,
        timestamp: i64,
    )
        requires
            old(self).wf(),
        ensures
            final(self).wf(),
            final(self)@ == model_add(
                old(self)@,
                user_id,
                TrackedMessage { message_id, channel_id, timestamp },
                true,
            ),
    {
        self.add_message_internal(user_id, message_id, channel_id, timestamp, true);
    }

    fn add_message_internal(
        &mut self,
        user_id: u64,
        message_id: u64,
        channel_id: u64,
        timestamp: i64,
        from_scan: bool,
    )
        requires
            old(self).wf(),
        ensures
            final(self).wf(),
            final(self)@ == model_add(
                old(self)@,
                user_id,
                TrackedMessage { message_id, channel_id, timestamp },
                from_scan,
            ),
    {
        let ghost s = self@;
        let ghost msg = TrackedMessage { message_id, channel_id, timestamp };
        proof {
            self.lemma_view_messages();
        }
        if from_scan && self.scanned_message_ids.contains(&message_id) {
            return;
        }
        let total = self.total_message_count();
        if total >= self.max_total_messages {
            return;
        }
        let duplicate = match self.messages.get(&user_id) {
            Some(v) => has_message_id(v, message_id),
            None => false,
        };
        if duplicate {
            if from_scan {
                self.scanned_message_ids.insert(message_id);
            }
            proof {
                self.lemma_view_messages();
                assert(self@.messages =~= s.messages);
            }
            return;
        }
        let mut user_messages: Vec<TrackedMessage> = match self.messages.remove(&user_id) {
            Some(v) => v,
            None => Vec::new(),
        };
        let ghost existing = user_messages@;
        assert(existing == messages_of(s, user_id));
        if user_messages.len() >= self.max_messages_per_user {
            user_messages.remove(0);
            assert(user_messages@ =~= existing.drop_first());
        }
        let ghost kept = user_messages@;
        user_messages.push(TrackedMessage::new(message_id, channel_id, timestamp));
        let ghost new_list = user_messages@;
        assert(new_list == kept.push(msg));
        self.messages.insert(user_id, user_messages);
        if from_scan {
            self.scanned_message_ids.insert(message_id);
        }
        proof {
            self.lemma_view_messages();
            assert(self@.messages =~= s.messages.insert(user_id, new_list));
            assert(ids_distinct(new_list)) by {
                assert forall|i: int, j: int|
                    0 <= i < new_list.len() && 0 <= j < new_list.len() && i != j implies
                    new_list[i].message_id != new_list[j].message_id by {
                    if i < kept.len() && j < kept.len() {
                        if existing.len() >= s.max_messages_per_user {
                            assert(kept[i] == existing[i + 1]);
                            assert(kept[j] == existing[j + 1]);
                        }
                    } else if i < kept.len() {
                        let k = if existing.len() >= s.max_messages_per_user { i + 1 } else { i };
                        assert(kept[i] == existing[k]);
                    } else if j < kept.len() {
                        let k = if existing.len() >= s.max_messages_per_user { j + 1 } else { j };
                        assert(kept[j] == existing[k]);
                    }
                }
            }
            lemma_total_after_insert(s.messages, user_id, new_list);
        }
    }

    /// Filters every user's list by `rule`, dropping users left with nothing.
    fn retain_messages(&mut self, rule: &KeepRule)
        requires
            old(self).wf(),
        ensures
            final(self).wf(),
            final(self)@ == model_retain(old(self)@, rule.pred()),
    {
        let ghost s = self@;
        let ghost keep = rule.pred();
        let ghost target = model_retain(s, keep);
        proof {
            self.lemma_view_messages();
        }
        let ids = self.user_ids();
        let mut i: usize = 0;
        while i < ids.len()
            invariant
                ids@.to_set() == s.messages.dom(),
                ids@.no_duplicates(),
                i <= ids.len(),
                keep == rule.pred(),
                self.scanned_message_ids@ == s.scanned,
                self.retention_period == s.retention_period,
                self.max_messages_per_user == s.max_messages_per_user,
                self.max_total_messages == s.max_total_messages,
                forall|u: u64| #[trigger]
                    self.messages@.contains_key(u) <==> (s.messages.contains_key(u) && (
                    ids@.take(i as int).contains(u) ==> s.messages[u].filter(keep).len() > 0)),
                forall|u: u64| #[trigger]
                    self.messages@.contains_key(u) ==> self.messages@[u]@ == (if ids@.take(
                        i as int,
                    ).contains(u) {
                        s.messages[u].filter(keep)
                    } else {
                        s.messages[u]
                    }),
            decreases ids.len() - i,
        {
            let u = ids[i];
            let ghost before = self.messages@;
            proof {
                assert(ids@.to_set().contains(u));
                assert(!ids@.take(i as int).contains(u)) by {
                    if ids@.take(i as int).contains(u) {
                        let j = choose|j: int| 0 <= j < i && ids@.take(i as int)[j] == u;
                        assert(ids@[j] == ids@[i as int]);
                    }
                }
                let prev = ids@.take(i as int);
                let next = ids@.take(i + 1);
                assert(next =~= prev.push(u));
                assert forall|w: u64| w != u implies (next.contains(w) <==> prev.contains(w)) by {
                    if next.contains(w) {
                        let j = choose|j: int| 0 <= j < next.len() && next[j] == w;
                        assert(prev[j] == w);
                    }
                    if prev.contains(w) {
                        let j = choose|j: int| 0 <= j < prev.len() && prev[j] == w;
                        assert(next[j] == w);
                    }
                }
                assert(ids@.take(i + 1)[i as int] == u);
            }
            match self.messages.remove(&u) {
                Some(v) => {
                    let kept = rule.filter(&v);
                    if kept.len() > 0 {
                        self.messages.insert(u, kept);
                    }
                },
                None => {},
            }
            i = i + 1;
        }
        proof {
            assert(ids@.take(ids.len() as int) =~= ids@);
            assert forall|u: u64| #[trigger] ids@.contains(u) <==> s.messages.contains_key(u) by {
                assert(ids@.to_set().contains(u) == ids@.contains(u));
            }
            self.lemma_view_messages();
            assert(self@.messages =~= target.messages);
            assert forall|u: u64| #[trigger] target.messages.contains_key(u) implies {
                &&& 0 < target.messages[u].len() <= s.max_messages_per_user
                &&& ids_distinct(target.messages[u])
            } by {
                lemma_filter_from_list(s.messages[u], keep);
            }
            assert(target.messages.dom().subset_of(s.messages.dom()));
            vstd::set_lib::lemma_len_subset(target.messages.dom(), s.messages.dom());
            assert forall|u: u64| #[trigger] target.messages.dom().contains(u) implies target.messages[u].len()
                <= s.messages[u].len() by {
                lemma_filter_from_list(s.messages[u], keep);
            }
            lemma_count_over_le(target.messages, s.messages, target.messages.dom(), s.messages.dom());
        }
    }

    /// Forgets the message `id` (one that was deleted on Discord).
    fn remove_message(&mut self, message_id: u64)
        requires
            old(self).wf(),
        ensures
            final(self).wf(),
            model_remove_message(old(self)@, message_id, final(self)@),
    {
        let ghost s = self@;
        proof {
            self.lemma_view_messages();
        }
        let ids = self.user_ids();
        let mut i: usize = 0;
        while i < ids.len()
            invariant
                self@ == s,
                s == old(self)@,
                self.wf(),
                ids@.to_set() == s.messages.dom(),
                i <= ids.len(),
                forall|j: int| 0 <= j < i ==> !holds_id(#[trigger] s.messages[ids@[j]], message_id),
            decreases ids.len() - i,
        {
            let u = ids[i];
            assert(ids@.to_set().contains(u));
            proof {
                self.lemma_view_messages();
            }
            let found = match self.messages.get(&u) {
                Some(v) => position_of(v, message_id),
                None => None,
            };
            match found {
                Some(p) => {
                    let mut v = self.messages.remove(&u).unwrap();
                    let ghost old_list = v@;
                    v.remove(p);
                    if v.len() > 0 {
                        self.messages.insert(u, v);
                    }
                    proof {
                        self.lemma_view_messages();
                        let t = model_remove_at(s, u, p as int);
                        assert(self@.messages =~= t.messages);
                        assert(self@ == t);
                        assert(s.messages[u][p as int].message_id == message_id);
                        assert(tracks_id(s, message_id));
                        self.lemma_remove_at_wf(s, u, p as int);
                        assert(model_remove_message(s, message_id, self@));
                    }
                    return;
                },
                None => {},
            }
            i = i + 1;
        }
        proof {
            assert forall|u: u64| #[trigger] s.messages.contains_key(u) implies !holds_id(
                s.messages[u],
                message_id,
            ) by {
                assert(ids@.to_set().contains(u));
                let j = choose|j: int| 0 <= j < ids@.len() && ids@[j] == u;
                assert(!holds_id(s.messages[ids@[j]], message_id));
            }
        }
    }

    /// Removing one message keeps the invariant.
    proof fn lemma_remove_at_wf(&self, s: TrackerModel, u: u64, i: int)
        requires
            model_wf(s),
            s.messages.contains_key(u),
            0 <= i < s.messages[u].len(),
            self@ == model_remove_at(s, u, i),
        ensures
            self.wf(),
    {
        let list = s.messages[u];
        let rest = list.remove(i);
        assert(ids_distinct(rest)) by {
            assert forall|a: int, b: int|
                0 <= a < rest.len() && 0 <= b < rest.len() && a != b implies rest[a].message_id
                != rest[b].message_id by {
                let a2 = if a < i { a } else { a + 1 };
                let b2 = if b < i { b } else { b + 1 };
                assert(rest[a] == list[a2]);
                assert(rest[b] == list[b2]);
            }
        }
        if rest.len() == 0 {
            lemma_total_after_remove(s.messages, u);
        } else {
            lemma_total_after_insert(s.messages, u, rest);
        }
    }

    /// Forgets every message whose id is in `message_ids` (a bulk deletion).
    fn remove_messages(&mut self, message_ids: &[u64])
        requires
            old(self).wf(),
        ensures
            final(self).wf(),
            final(self)@ == model_retain(old(self)@, not_listed(message_ids@.to_set())),
    {
        let mut ids_set: HashSet<u64> = HashSet::new();
        let mut i: usize = 0;
        while i < message_ids.len()
            invariant
                i <= message_ids.len(),
                ids_set@ == message_ids@.take(i as int).to_set(),
            decreases message_ids.len() - i,
        {
            let id = message_ids[i];
            ids_set.insert(id);
            proof {
                assert(message_ids@.take(i + 1) =~= message_ids@.take(i as int).push(id));
                message_ids@.take(i as int).lemma_push_to_set_commute(id);
            }
            i = i + 1;
        }
        assert(message_ids@.take(message_ids.len() as int) =~= message_ids@);
        let rule = KeepRule::NotListed(ids_set);
        self.retain_messages(&rule);
    }

    /// Drops every message as old as the retention period at time `now`, or
    /// older, and forgets the remembered scan ids when there are too many.
    fn cleanup_at(&mut self, now: i64)
        requires
            old(self).wf(),
        ensures
            final(self).wf(),
            final(self)@ == model_cleanup(old(self)@, now as int),
    {
        let rule = KeepRule::FreshAt { now, retention: self.retention_period };
        self.retain_messages(&rule);
        let scanned_count = self.scanned_message_ids.len();
        if scanned_count > SCANNED_IDS_LIMIT {
            self.scanned_message_ids.clear();
        }
        proof {
            self.lemma_view_messages();
        }
    }

    /// A copy of `user_id`'s tracked messages, in the order they were handed in;
    /// empty if there are none.
    fn get_user_messages(&self, user_id: u64) -> (msgs: Vec<TrackedMessage>)
        requires
            self.wf(),
        ensures
            msgs@ == messages_of(self@, user_id),
    {
        proof {
            self.lemma_view_messages();
        }
        let mut out: Vec<TrackedMessage> = Vec::new();
        match self.messages.get(&user_id) {
            Some(v) => {
                let mut i: usize = 0;
                while i < v.len()
                    invariant
                        i <= v.len(),
                        out@ == v@.take(i as int),
                    decreases v.len() - i,
                {
                    out.push(v[i]);
                    assert(out@ =~= v@.take(i + 1));
                    i = i + 1;
                }
                assert(v@.take(v.len() as int) =~= v@);
            },
            None => {},
        }
        out
    }

    /// The (message id, channel id) pairs of `user_id`'s tracked messages, in the
    /// order they were handed in.
    fn get_user_message_ids(&self, user_id: u64) -> (ids: Vec<(u64, u64)>)
        requires
            self.wf(),
        ensures
            ids@ == id_pairs(messages_of(self@, user_id)),
    {
        proof {
            self.lemma_view_messages();
        }
        let mut out: Vec<(u64, u64)> = Vec::new();
        match self.messages.get(&user_id) {
            Some(v) => {
                let mut i: usize = 0;
                while i < v.len()
                    invariant
                        i <= v.len(),
                        out@ == id_pairs(v@.take(i as int)),
                    decreases v.len() - i,
                {
                    let m = v[i];
                    out.push((m.message_id, m.channel_id));
                    proof {
                        let prev = v@.take(i as int);
                        assert(v@.take(i + 1) =~= prev.push(m));
                        assert(out@ =~= id_pairs(prev.push(m)));
                    }
                    i = i + 1;
                }
                assert(v@.take(v.len() as int) =~= v@);
            },
            None => {},
        }
        assert(out@ =~= id_pairs(messages_of(self@, user_id)));
        out
    }

    /// The number of users with tracked messages, and the number of messages.
    fn get_stats(&self) -> (stats: (usize, usize))
        requires
            self.wf(),
        ensures
            stats.0 == self@.messages.dom().len(),
            stats.1 == total_messages(self@.messages),
    {
        proof {
            self.lemma_view_messages();
        }
        let user_count = self.messages.len();
        let total = self.total_message_count();
        (user_count, total)
    }
}

/// Tracks, per user, the messages seen recently, so that they can be purged.
/// Every tracker satisfies `model_wf`: it is an invariant of the type.
pub struct MessageTracker {
    state: TrackerState,
}

impl View for MessageTracker {
    type V = TrackerModel;

    closed spec fn view(&self) -> TrackerModel {
        self.state@
    }
}

impl MessageTracker {
    #[verifier::type_invariant]
    spec fn inv(self) -> bool {
        self.state.wf()
    }

    /// The tracker's invariant, which every tracker satisfies.
    pub open spec fn wf(&self) -> bool {
        model_wf(self@)
    }

    /// Takes the fields out, leaving an empty tracker in their place.
    fn take_state(&mut self) -> (state: TrackerState)
        ensures
            state.wf(),
            state@ == old(self)@,
    {
        proof {
            use_type_invariant(&*self);
        }
        let mut state = TrackerState::new();
        swap(&mut state, &mut self.state);
        state
    }

    /// An empty tracker with the 48-hour retention period and the default limits.
    pub fn new() -> (t: Self)
        ensures
            t.wf(),
            t@.messages == Map::<u64, Seq<TrackedMessage>>::empty(),
            t@.scanned == Set::<u64>::empty(),
            t@.retention_period == RETENTION_PERIOD_MS,
            t@.max_messages_per_user == MAX_MESSAGES_PER_USER,
            t@.max_total_messages == MAX_TOTAL_MESSAGES,
    {
        MessageTracker { state: TrackerState::new() }
    }

    /// Tracks a message that was just posted.
    pub fn add_message(&mut self, user_id: u64, message_id: u64, channel_id: u64, timestamp: i64)
        ensures
            final(self).wf(),
            final(self)@ == model_add(
                old(self)@,
                user_id,
                TrackedMessage { message_id, channel_id, timestamp },
                false,
            ),
    {
        let mut state = self.take_state();
        state.add_message(user_id, message_id, channel_id, timestamp);
        self.state = state;
    }

    /// Tracks a message found by a history scan; one that a scan already
    /// handed in is ignored.
    pub fn add_message_from_scan(
        &mut self,
        user_id: u64,
        message_id: u64,
        channel_id: u64,
        timestamp: i64,
    )
        ensures
            final(self).wf(),
            final(self)@ == model_add(
                old(self)@,
                user_id,
                TrackedMessage { message_id, channel_id, timestamp },
                true,
            ),
    {
        let mut state = self.take_state();
        state.add_message_from_scan(user_id, message_id, channel_id, timestamp);
        self.state = state;
    }

    /// Forgets the message `id` (one that was deleted on Discord).
    pub fn remove_message(&mut self, message_id: u64)
        ensures
            final(self).wf(),
            model_remove_message(old(self)@, message_id, final(self)@),
    {
        let mut state = self.take_state();
        state.remove_message(message_id);
        self.state = state;
    }

    /// Forgets every message whose id is in `message_ids` (a bulk deletion).
    pub fn remove_messages(&mut self, message_ids: &[u64])
        ensures
            final(self).wf(),
            final(self)@ == model_retain(old(self)@, not_listed(message_ids@.to_set())),
    {
        let mut state = self.take_state();
        state.remove_messages(message_ids);
        self.state = state;
    }

    /// Drops every message as old as the retention period at time `now`, or
    /// older, and forgets the remembered scan ids when there are too many.
    pub fn cleanup_at(&mut self, now: i64)
        ensures
            final(self).wf(),
            final(self)@ == model_cleanup(old(self)@, now as int),
    {
        let mut state = self.take_state();
        state.cleanup_at(now);
        self.state = state;
    }

    /// Drops the expired messages as of the current time (see `cleanup_at`).
    pub fn cleanup(&mut self)
        ensures
            final(self).wf(),
            exists|now: i64| final(self)@ == model_cleanup(old(self)@, now as int),
    {
        let now = current_time_millis();
        self.cleanup_at(now);
    }

    /// A copy of `user_id`'s tracked messages, in the order they were handed in;
    /// empty if there are none.
    pub fn get_user_messages(&self, user_id: u64) -> (msgs: Vec<TrackedMessage>)
        ensures
            msgs@ == messages_of(self@, user_id),
    {
        proof {
            use_type_invariant(self);
        }
        self.state.get_user_messages(user_id)
    }

    /// The (message id, channel id) pairs of `user_id`'s tracked messages, in the
    /// order they were handed in.
    pub fn get_user_message_ids(&self, user_id: u64) -> (ids: Vec<(u64, u64)>)
        ensures
            ids@ == id_pairs(messages_of(self@, user_id)),
    {
        proof {
            use_type_invariant(self);
        }
        self.state.get_user_message_ids(user_id)
    }

    /// The number of users with tracked messages, and the number of messages.
    pub fn get_stats(&self) -> (stats: (usize, usize))
        ensures
            stats.0 == self@.messages.dom().len(),
            stats.1 == total_messages(self@.messages),
    {
        proof {
            use_type_invariant(self);
        }
        self.state.get_stats()
    }

    /// The tracked messages of every user, as stored.
    pub fn get_messages(&self) -> (m: &UserMessages)
        ensures
            m@.map_values(|v: Vec<TrackedMessage>| v@) == self@.messages,
    {
        &self.state.messages
    }
}

/// The index of the first message in `msgs` with id `id`, if any.
fn position_of(msgs: &Vec<TrackedMessage>, id: u64) -> (p: Option<usize>)
    ensures
        match p {
            Some(i) => i < msgs.len() && msgs@[i as int].message_id == id,
            None => !holds_id(msgs@, id),
        },
{
    let mut i: usize = 0;
    while i < msgs.len()
        invariant
            i <= msgs.len(),
            forall|j: int| 0 <= j < i ==> msgs@[j].message_id != id,
        decreases msgs.len() - i,
    {
        if msgs[i].message_id == id {
            return Some(i);
        }
        i = i + 1;
    }
    None
}

/// Whether a newly posted message is tracked: only messages that people post
/// in a guild are; those of bots and direct messages are not.
pub fn should_track(author_is_bot: bool, in_guild: bool) -> (b: bool)
    ensures
        b == (!author_is_bot && in_guild),
{
    !author_is_bot && in_guild
}

/// Whether some message in `msgs` has the id `id`.
fn has_message_id(msgs: &Vec<TrackedMessage>, id: u64) -> (b: bool)
    ensures
        b == holds_id(msgs@, id),
{
    let mut i: usize = 0;
    while i < msgs.len()
        invariant
            i <= msgs.len(),
            forall|j: int| 0 <= j < i ==> msgs@[j].message_id != id,
        decreases msgs.len() - i,
    {
        if msgs[i].message_id == id {
            return true;
        }
        i = i + 1;
    }
    false
}

} // verus!
