use crate::clock::current_time_millis;
use crate::services::message_counts::total_messages;
use crate::services::message_lists::holds_id;
use crate::services::message_tracker::{messages_of, model_add, model_wf, MessageTracker, TrackerModel};
use crate::types::TrackedMessage;
use vstd::prelude::*;

verus! {

/// Messages older than this (48 hours, in milliseconds) end a channel's scan.
pub const SCAN_RETENTION_PERIOD_MS: i64 = 48 * 60 * 60 * 1000;

/// A channel's scan stops once it has tracked this many messages.
pub const MAX_MESSAGES_PER_CHANNEL: usize = 500;

/// How many messages one history request asks for.
pub const SCAN_BATCH_SIZE: u8 = 50;

/// The pause between two history requests in one channel, in milliseconds.
pub const BATCH_DELAY_MS: u64 = 1000;

/// The pause between two channels, in milliseconds.
pub const CHANNEL_DELAY_MS: u64 = 2000;

/// Reads the recent history of the guilds' channels into a message tracker.
pub struct HistoryScanner;

/// A message from a channel's history, as the scan reads it.
#[derive(Debug, Clone, Copy)]
pub struct ScannedMessage {
    pub message_id: u64,
    pub channel_id: u64,
    pub author_id: u64,
    pub author_is_bot: bool,
    pub timestamp: i64,
}

/// Where the scan of one channel stands.
#[derive(Debug, Clone, Copy)]
pub struct ChannelScan {
    /// The time the scan started, in milliseconds since the Unix epoch.
    pub now: i64,
    /// How many messages the scan has tracked so far.
    pub count: usize,
    /// The id of the last message read; the next request asks for older ones.
    pub last_id: Option<u64>,
}

/// What the scan of a channel asks its driver to do next.
#[derive(Debug, Clone, Copy, PartialEq, Eq)]
pub enum ScanAction {
    /// Request the next batch of history, older than `before` when it is given,
    /// after pausing for `BATCH_DELAY_MS` when `pause_first` is set.
    Fetch { before: Option<u64>, pause_first: bool },
    /// The scan is over; it tracked `message_count` messages. Pause for
    /// `BATCH_DELAY_MS` first when `pause_first` is set.
    Finish { message_count: usize, pause_first: bool },
}

/// What the driver saw when it requested a batch.
pub enum ScanEvent {
    /// The batch of messages, newest first.
    Batch(Vec<ScannedMessage>),
    /// The request failed (no permission, or the channel is gone).
    FetchFailed,
}

/// Whether `m` is too old, at time `now`, to be tracked.
pub open spec fn is_stale(now: i64, m: ScannedMessage) -> bool {
    now - m.timestamp > SCAN_RETENTION_PERIOD_MS
}

/// How many messages at the front of `msgs` are not stale.
pub open spec fn fresh_len(now: i64, msgs: Seq<ScannedMessage>) -> nat
    decreases msgs.len(),
{
    if msgs.len() == 0 || is_stale(now, msgs[0]) {
        0
    } else {
        1 + fresh_len(now, msgs.drop_first())
    }
}

/// The message that tracking `m` adds.
pub open spec fn as_tracked(m: ScannedMessage) -> TrackedMessage {
    TrackedMessage { message_id: m.message_id, channel_id: m.channel_id, timestamp: m.timestamp }
}

/// What handing in each message of `msgs` written by a person, in order, as
/// found by a scan, makes of `s`.
pub open spec fn model_track_all(s: TrackerModel, msgs: Seq<ScannedMessage>) -> TrackerModel
    decreases msgs.len(),
{
    if msgs.len() == 0 {
        s
    } else {
        let before = model_track_all(s, msgs.drop_last());
        let m = msgs.last();
        if m.author_is_bot {
            before
        } else {
            model_add(before, m.author_id, as_tracked(m), true)
        }
    }
}

/// How many messages of `msgs` were written by a person.
pub open spec fn human_count(msgs: Seq<ScannedMessage>) -> nat
    decreases msgs.len(),
{
    if msgs.len() == 0 {
        0
    } else {
        human_count(msgs.drop_last()) + if msgs.last().author_is_bot { 0nat } else { 1nat }
    }
}

/// The scan state after a batch: the fresh front of the batch is read.
pub open spec fn scan_after_batch(scan: ChannelScan, msgs: Seq<ScannedMessage>) -> ChannelScan {
    let k = fresh_len(scan.now, msgs);
    ChannelScan {
        now: scan.now,
        count: (scan.count + human_count(msgs.take(k as int))) as usize,
        last_id: if k > 0 { Some(msgs[k - 1].message_id) } else { scan.last_id },
    }
}

/// The action after a batch: an empty batch or a stale message ends the scan;
/// otherwise the scan pauses, then ends if it has tracked enough, or asks for
/// older messages.
pub open spec fn action_after_batch(scan: ChannelScan, msgs: Seq<ScannedMessage>) -> ScanAction {
    let next = scan_after_batch(scan, msgs);
    if msgs.len() == 0 {
        ScanAction::Finish { message_count: scan.count, pause_first: false }
    } else if fresh_len(scan.now, msgs) < msgs.len() {
        ScanAction::Finish { message_count: next.count, pause_first: false }
    } else if next.count >= MAX_MESSAGES_PER_CHANNEL {
        ScanAction::Finish { message_count: next.count, pause_first: true }
    } else {
        ScanAction::Fetch { before: next.last_id, pause_first: true }
    }
}

proof fn lemma_fresh_len(now: i64, msgs: Seq<ScannedMessage>, k: int)
    requires
        0 <= k <= msgs.len(),
        forall|j: int| 0 <= j < k ==> !is_stale(now, #[trigger] msgs[j]),
        k < msgs.len() ==> is_stale(now, msgs[k]),
    ensures
        fresh_len(now, msgs) == k,
    decreases k,
{
    if k > 0 {
        let rest = msgs.drop_first();
        assert forall|j: int| 0 <= j < k - 1 implies !is_stale(now, #[trigger] rest[j]) by {
            assert(rest[j] == msgs[j + 1]);
        }
        if k < msgs.len() {
            assert(rest[k - 1] == msgs[k]);
        }
        lemma_fresh_len(now, rest, k - 1);
    }
}

impl HistoryScanner {
    /// Starts scanning a channel at the current time.
    pub fn begin_channel_scan() -> (r: (ChannelScan, ScanAction))
        ensures
            r.0.count == 0,
            r.0.last_id is None,
            r.1 == (ScanAction::Fetch { before: None, pause_first: false }),
    {
        let now = current_time_millis();
        Self::begin_channel_scan_at(now)
    }

    /// Starts scanning a channel at time `now`: nothing is tracked yet, and the
    /// newest batch is requested.
    pub fn begin_channel_scan_at(now: i64) -> (r: (ChannelScan, ScanAction))
        ensures
            r.0 == (ChannelScan { now, count: 0, last_id: None }),
            r.1 == (ScanAction::Fetch { before: None, pause_first: false }),
    {
        (ChannelScan { now, count: 0, last_id: None }, ScanAction::Fetch { before: None, pause_first: false })
    }

    /// Takes in what a history request returned: tracks the messages written by
    /// people, newest first, until one is stale, and says what to do next.
    pub fn scan_step(scan: &mut ChannelScan, tracker: &mut MessageTracker, event: ScanEvent) -> (action: ScanAction)
        requires
            event matches ScanEvent::Batch(msgs) ==> old(scan).count + msgs.len() <= usize::MAX,
        ensures
            match event {
                ScanEvent::FetchFailed => {
                    &&& *final(scan) == *old(scan)
                    &&& final(tracker)@ == old(tracker)@
                    &&& action == (ScanAction::Finish { message_count: old(scan).count, pause_first: false })
                },
                ScanEvent::Batch(msgs) => {
                    &&& *final(scan) == scan_after_batch(*old(scan), msgs@)
                    &&& final(tracker)@ == model_track_all(
                        old(tracker)@,
                        msgs@.take(fresh_len(old(scan).now, msgs@) as int),
                    )
                    &&& action == action_after_batch(*old(scan), msgs@)
                },
            },
    {
        match event {
            ScanEvent::FetchFailed => ScanAction::Finish { message_count: scan.count, pause_first: false },
            ScanEvent::Batch(msgs) => {
                if msgs.len() == 0 {
                    proof {
                        lemma_fresh_len(scan.now, msgs@, 0);
                        assert(msgs@.take(0) =~= Seq::<ScannedMessage>::empty());
                    }
                    return ScanAction::Finish { message_count: scan.count, pause_first: false };
                }
                let ghost start = *scan;
                let ghost t0 = tracker@;
                let mut i: usize = 0;
                while i < msgs.len()
                    invariant
                        event == ScanEvent::Batch(msgs),
                        start == *old(scan),
                        t0 == old(tracker)@,
                        i <= msgs.len(),
                        start.count + msgs@.len() <= usize::MAX,
                        forall|j: int| 0 <= j < i ==> !is_stale(start.now, #[trigger] msgs@[j]),
                        tracker@ == model_track_all(t0, msgs@.take(i as int)),
                        scan.now == start.now,
                        scan.count == start.count + human_count(msgs@.take(i as int)),
                        human_count(msgs@.take(i as int)) <= i,
                        scan.last_id == if i > 0 { Some(msgs@[i - 1].message_id) } else { start.last_id },
                    decreases msgs.len() - i,
                {
                    let m = msgs[i];
                    if (scan.now as i128) - (m.timestamp as i128) > (SCAN_RETENTION_PERIOD_MS as i128) {
                        proof {
                            lemma_fresh_len(start.now, msgs@, i as int);
                        }
                        return ScanAction::Finish { message_count: scan.count, pause_first: false };
                    }
                    proof {
                        assert(msgs@.take(i + 1).drop_last() =~= msgs@.take(i as int));
                    }
                    if !m.author_is_bot {
                        tracker.add_message_from_scan(m.author_id, m.message_id, m.channel_id, m.timestamp);
                        scan.count = scan.count + 1;
                    }
                    scan.last_id = Some(m.message_id);
                    i = i + 1;
                }
                proof {
                    lemma_fresh_len(start.now, msgs@, msgs@.len() as int);
                    assert(msgs@.take(msgs@.len() as int) =~= msgs@);
                }
                if scan.count >= MAX_MESSAGES_PER_CHANNEL {
                    ScanAction::Finish { message_count: scan.count, pause_first: true }
                } else {
                    ScanAction::Fetch { before: scan.last_id, pause_first: true }
                }
            },
        }
    }
}

/// Whether every message that a user holds in `t` was held by that user in
/// `s`, or is one of `msgs` written by that user (not a bot), with that
/// message's own id, channel and millisecond timestamp.
pub open spec fn tracked_from(s: TrackerModel, t: TrackerModel, msgs: Seq<ScannedMessage>) -> bool {
    forall|u: u64, i: int| #[trigger] entry_tracked_from(s, t, msgs, u, i)
}

/// Whether the message at index `i` of user `u`'s list in `t`, if there is
/// one, was in that user's list in `s` or is one of `msgs` written by `u`, with
/// its own id, channel and millisecond timestamp.
pub open spec fn entry_tracked_from(s: TrackerModel, t: TrackerModel, msgs: Seq<ScannedMessage>, u: u64, i: int) -> bool {
    t.messages.contains_key(u) && 0 <= i < t.messages[u].len() ==> (s.messages.contains_key(u)
        && s.messages[u].contains(t.messages[u][i])) || exists|k: int|
        0 <= k < msgs.len() && !#[trigger] msgs[k].author_is_bot && msgs[k].author_id == u
            && t.messages[u][i] == (TrackedMessage {
            message_id: msgs[k].message_id,
            channel_id: msgs[k].channel_id,
            timestamp: msgs[k].timestamp,
        })
}

/// Every message in a user's list after an add was in that user's list before,
/// or is the added message, added for that user.
proof fn lemma_add_keeps_or_adds(s: TrackerModel, user: u64, msg: TrackedMessage, from_scan: bool)
    requires
        s.max_messages_per_user > 0,
    ensures
        ({
            let t = model_add(s, user, msg, from_scan);
            forall|u: u64, i: int|
                t.messages.contains_key(u) && 0 <= i < t.messages[u].len() ==> (s.messages.contains_key(u)
                    && s.messages[u].contains(#[trigger] t.messages[u][i])) || (u == user && t.messages[u][i]
                    == msg)
        }),
{
    let t = model_add(s, user, msg, from_scan);
    assert forall|u: u64, i: int|
        t.messages.contains_key(u) && 0 <= i < t.messages[u].len() implies (s.messages.contains_key(u)
        && s.messages[u].contains(#[trigger] t.messages[u][i])) || (u == user && t.messages[u][i] == msg) by {
        let existing = messages_of(s, user);
        let x = t.messages[u][i];
        if from_scan && s.scanned.contains(msg.message_id) {
            assert(s.messages[u][i] == x);
        } else if total_messages(s.messages) >= s.max_total_messages {
            assert(s.messages[u][i] == x);
        } else if holds_id(existing, msg.message_id) {
            assert(t.messages == s.messages);
            assert(s.messages[u][i] == x);
        } else {
            let kept = if existing.len() >= s.max_messages_per_user {
                existing.drop_first()
            } else {
                existing
            };
            assert(t.messages == s.messages.insert(user, kept.push(msg)));
            if u != user {
                assert(s.messages[u][i] == x);
            } else if i < kept.len() {
                let k = if existing.len() >= s.max_messages_per_user { i + 1 } else { i };
                assert(existing.len() > 0);
                assert(kept.push(msg)[i] == kept[i]);
                assert(kept[i] == existing[k]);
                assert(s.messages.contains_key(u));
                assert(s.messages[u][k] == x);
            } else {
                assert(kept.push(msg)[i] == msg);
            }
        }
    }
}

/// A scan tracks nothing but the messages of the batch it read, as they are:
/// every message that a user holds after a scan step was held by that user
/// before, or is a message of the batch's fresh front, written by that user
/// (not a bot), with its own id, channel and millisecond timestamp.
pub proof fn law_scan_tracks_batch_messages(s: TrackerModel, now: i64, batch: Seq<ScannedMessage>)
    requires
        model_wf(s),
    ensures
        tracked_from(
            s,
            model_track_all(s, batch.take(fresh_len(now, batch) as int)),
            batch.take(fresh_len(now, batch) as int),
        ),
        fresh_len(now, batch) <= batch.len(),
        forall|k: int|
            0 <= k < fresh_len(now, batch) ==> now - #[trigger] batch[k].timestamp <= SCAN_RETENTION_PERIOD_MS,
{
    lemma_fresh_front(now, batch);
    lemma_track_all_sources(s, batch.take(fresh_len(now, batch) as int));
    assert forall|k: int| 0 <= k < fresh_len(now, batch) implies now - #[trigger] batch[k].timestamp
        <= SCAN_RETENTION_PERIOD_MS by {
        assert(!is_stale(now, batch[k]));
    }
}

/// The fresh front of a batch holds no stale message.
proof fn lemma_fresh_front(now: i64, batch: Seq<ScannedMessage>)
    ensures
        fresh_len(now, batch) <= batch.len(),
        forall|k: int| 0 <= k < fresh_len(now, batch) ==> !is_stale(now, #[trigger] batch[k]),
    decreases batch.len(),
{
    if batch.len() > 0 && !is_stale(now, batch[0]) {
        let rest = batch.drop_first();
        lemma_fresh_front(now, rest);
        assert forall|k: int| 0 <= k < fresh_len(now, batch) implies !is_stale(now, #[trigger] batch[k]) by {
            if k > 0 {
                assert(batch[k] == rest[k - 1]);
            }
        }
    }
}

proof fn lemma_track_all_sources(s: TrackerModel, msgs: Seq<ScannedMessage>)
    requires
        s.max_messages_per_user > 0,
    ensures
        tracked_from(s, model_track_all(s, msgs), msgs),
    decreases msgs.len(),
{
    if msgs.len() == 0 {
        assert forall|u: u64, i: int| #[trigger] entry_tracked_from(s, model_track_all(s, msgs), msgs, u, i) by {
            if s.messages.contains_key(u) && 0 <= i < s.messages[u].len() {
                assert(s.messages[u][i] == s.messages[u][i]);
            }
        }
    }
    if msgs.len() > 0 {
        let p = msgs.drop_last();
        let m = msgs.last();
        lemma_track_all_sources(s, p);
        let before = model_track_all(s, p);
        let t = model_track_all(s, msgs);
        lemma_track_all_limits(s, p);
        if !m.author_is_bot {
            lemma_add_keeps_or_adds(before, m.author_id, as_tracked(m), true);
        }
        assert forall|u: u64, i: int| #[trigger] entry_tracked_from(s, t, msgs, u, i) by {
            if t.messages.contains_key(u) && 0 <= i < t.messages[u].len() {
                let x = t.messages[u][i];
                if before.messages.contains_key(u) && before.messages[u].contains(x) {
                    let j = choose|j: int| 0 <= j < before.messages[u].len() && before.messages[u][j] == x;
                    assert(entry_tracked_from(s, before, p, u, j));
                    if !(s.messages.contains_key(u) && s.messages[u].contains(x)) {
                        let k = choose|k: int|
                            0 <= k < p.len() && !#[trigger] p[k].author_is_bot && p[k].author_id == u
                                && before.messages[u][j] == (TrackedMessage {
                                message_id: p[k].message_id,
                                channel_id: p[k].channel_id,
                                timestamp: p[k].timestamp,
                            });
                        assert(msgs[k] == p[k]);
                        assert(!msgs[k].author_is_bot);
                    }
                } else {
                    assert(!m.author_is_bot);
                    assert(u == m.author_id && x == as_tracked(m));
                    assert(msgs[msgs.len() - 1] == m);
                    assert(!msgs[msgs.len() - 1].author_is_bot);
                }
            }
        }
        assert(tracked_from(s, t, msgs));
    }
}

/// A fresh message that a person wrote, handed in by a scan while the tracker
/// is under its global limit, whose id no scan handed in before and its author
/// does not hold yet, ends up as its author's last message, with its own id,
/// channel and millisecond timestamp.
pub proof fn law_scan_tracks_new_message(s: TrackerModel, batch: Seq<ScannedMessage>, k: int)
    requires
        model_wf(s),
        0 <= k < batch.len(),
        !batch[k].author_is_bot,
        total_messages(model_track_all(s, batch.take(k)).messages) < s.max_total_messages,
        !model_track_all(s, batch.take(k)).scanned.contains(batch[k].message_id),
        !holds_id(messages_of(model_track_all(s, batch.take(k)), batch[k].author_id), batch[k].message_id),
    ensures
        ({
            let t = model_track_all(s, batch.take(k + 1));
            &&& t.messages.contains_key(batch[k].author_id)
            &&& t.messages[batch[k].author_id].last() == (TrackedMessage {
                message_id: batch[k].message_id,
                channel_id: batch[k].channel_id,
                timestamp: batch[k].timestamp,
            })
        }),
{
    assert(batch.take(k + 1).drop_last() =~= batch.take(k));
    assert(batch.take(k + 1).last() == batch[k]);
    lemma_track_all_limits(s, batch.take(k));
}

/// Handing in messages never changes the tracker's limits.
proof fn lemma_track_all_limits(s: TrackerModel, msgs: Seq<ScannedMessage>)
    ensures
        model_track_all(s, msgs).max_total_messages == s.max_total_messages,
        model_track_all(s, msgs).max_messages_per_user == s.max_messages_per_user,
    decreases msgs.len(),
{
    if msgs.len() > 0 {
        lemma_track_all_limits(s, msgs.drop_last());
    }
}

} // verus!
