use discord_purge_bot::services::message_tracker::{
    should_track, MessageTracker, MAX_MESSAGES_PER_USER, MAX_TOTAL_MESSAGES, RETENTION_PERIOD_MS,
};
use discord_purge_bot::types::TrackedMessage;

fn ids_of(msgs: &[TrackedMessage]) -> Vec<u64> {
    msgs.iter().map(|m| m.message_id).collect()
}

#[test]
fn tracked_message_new_keeps_fields() {
    let m = TrackedMessage::new(7, 8, -9);
    assert_eq!(m.message_id, 7);
    assert_eq!(m.channel_id, 8);
    assert_eq!(m.timestamp, -9);
}

#[test]
fn new_tracker_is_empty() {
    let t = MessageTracker::new();
    assert_eq!(t.get_stats(), (0, 0));
    assert!(t.get_user_messages(1).is_empty());
    assert!(t.get_messages().is_empty());
}

#[test]
fn added_message_is_read_back() {
    let mut t = MessageTracker::new();
    t.add_message(1, 10, 100, 1_000);
    t.add_message(1, 11, 101, 2_000);
    t.add_message(2, 20, 100, 3_000);
    let msgs = t.get_user_messages(1);
    assert_eq!(msgs, vec![TrackedMessage::new(10, 100, 1_000), TrackedMessage::new(11, 101, 2_000)]);
    assert_eq!(t.get_user_message_ids(1), vec![(10, 100), (11, 101)]);
    assert_eq!(t.get_user_message_ids(3), Vec::<(u64, u64)>::new());
    assert_eq!(t.get_stats(), (2, 3));
    assert_eq!(t.get_messages().len(), 2);
}

#[test]
fn duplicate_message_is_not_added_twice() {
    let mut t = MessageTracker::new();
    t.add_message(1, 10, 100, 1_000);
    t.add_message(1, 10, 999, 5_000);
    assert_eq!(t.get_user_messages(1), vec![TrackedMessage::new(10, 100, 1_000)]);
    assert_eq!(t.get_stats(), (1, 1));
}

#[test]
fn same_id_for_other_user_is_added() {
    let mut t = MessageTracker::new();
    t.add_message(1, 10, 100, 1_000);
    t.add_message(2, 10, 100, 1_000);
    assert_eq!(t.get_stats(), (2, 2));
}

#[test]
fn user_at_limit_loses_first_added_message() {
    let mut t = MessageTracker::new();
    for id in 0..MAX_MESSAGES_PER_USER as u64 {
        t.add_message(1, id, 100, id as i64);
    }
    assert_eq!(t.get_stats(), (1, MAX_MESSAGES_PER_USER));
    t.add_message(1, 5_000, 100, 5_000);
    let msgs = t.get_user_messages(1);
    assert_eq!(msgs.len(), MAX_MESSAGES_PER_USER);
    assert_eq!(msgs[0].message_id, 1);
    assert_eq!(msgs[msgs.len() - 1].message_id, 5_000);
}

#[test]
fn global_limit_stops_new_messages() {
    let mut t = MessageTracker::new();
    let users = (MAX_TOTAL_MESSAGES / MAX_MESSAGES_PER_USER) as u64;
    for user in 0..users {
        for k in 0..MAX_MESSAGES_PER_USER as u64 {
            t.add_message(user, user * 10_000 + k, 1, 0);
        }
    }
    assert_eq!(t.get_stats(), (users as usize, MAX_TOTAL_MESSAGES));
    t.add_message(9_999, 1, 1, 0);
    assert_eq!(t.get_stats(), (users as usize, MAX_TOTAL_MESSAGES));
    assert!(t.get_user_messages(9_999).is_empty());
    // Even a user at the per-user limit is not rotated once the global limit is hit.
    t.add_message(0, 777_777, 1, 0);
    assert_eq!(t.get_user_messages(0)[0].message_id, 0);
}

#[test]
fn scanned_message_is_ignored_second_time() {
    let mut t = MessageTracker::new();
    t.add_message_from_scan(1, 10, 100, 1_000);
    t.remove_message(10);
    assert_eq!(t.get_stats(), (0, 0));
    // The scan remembers the id even after the message is gone.
    t.add_message_from_scan(1, 10, 100, 1_000);
    assert_eq!(t.get_stats(), (0, 0));
    // A live message with the same id is still tracked.
    t.add_message(1, 10, 100, 1_000);
    assert_eq!(t.get_stats(), (1, 1));
}

#[test]
fn scan_of_already_tracked_message_remembers_id() {
    let mut t = MessageTracker::new();
    t.add_message(1, 10, 100, 1_000);
    t.add_message_from_scan(1, 10, 100, 1_000);
    assert_eq!(t.get_stats(), (1, 1));
    t.remove_message(10);
    t.add_message_from_scan(1, 10, 100, 1_000);
    assert_eq!(t.get_stats(), (0, 0));
}

#[test]
fn remove_message_takes_out_one_and_drops_empty_user() {
    let mut t = MessageTracker::new();
    t.add_message(1, 10, 100, 1_000);
    t.add_message(1, 11, 100, 1_000);
    t.add_message(2, 20, 100, 1_000);
    t.remove_message(10);
    assert_eq!(ids_of(&t.get_user_messages(1)), vec![11]);
    t.remove_message(20);
    assert_eq!(t.get_stats(), (1, 1));
    t.remove_message(12345);
    assert_eq!(t.get_stats(), (1, 1));
}

#[test]
fn remove_undoes_add() {
    let mut t = MessageTracker::new();
    t.add_message(1, 10, 100, 1_000);
    let before = t.get_user_messages(1);
    t.add_message(1, 11, 100, 2_000);
    t.remove_message(11);
    assert_eq!(t.get_user_messages(1), before);
    t.add_message(2, 30, 100, 2_000);
    t.remove_message(30);
    assert_eq!(t.get_stats(), (1, 1));
}

#[test]
fn remove_messages_forgets_all_listed() {
    let mut t = MessageTracker::new();
    t.add_message(1, 10, 100, 1_000);
    t.add_message(1, 11, 100, 1_000);
    t.add_message(1, 12, 100, 1_000);
    t.add_message(2, 20, 100, 1_000);
    t.remove_messages(&[10, 12, 20, 99]);
    assert_eq!(ids_of(&t.get_user_messages(1)), vec![11]);
    assert!(t.get_user_messages(2).is_empty());
    assert_eq!(t.get_stats(), (1, 1));
    t.remove_messages(&[]);
    assert_eq!(t.get_stats(), (1, 1));
}

#[test]
fn cleanup_drops_expired_messages() {
    let mut t = MessageTracker::new();
    let now: i64 = 1_700_000_000_000;
    t.add_message(1, 10, 100, now - RETENTION_PERIOD_MS); // exactly as old as the period: dropped
    t.add_message(1, 11, 100, now - RETENTION_PERIOD_MS + 1); // just younger: kept
    t.add_message(2, 20, 100, now - 3 * RETENTION_PERIOD_MS); // long gone
    t.add_message(3, 30, 100, now + 5); // posted "after" now: kept
    t.cleanup_at(now);
    assert_eq!(ids_of(&t.get_user_messages(1)), vec![11]);
    assert!(t.get_user_messages(2).is_empty());
    assert_eq!(ids_of(&t.get_user_messages(3)), vec![30]);
    assert_eq!(t.get_stats(), (2, 2));
    // A second cleanup at the same time changes nothing.
    t.cleanup_at(now);
    assert_eq!(t.get_stats(), (2, 2));
}

#[test]
fn cleanup_handles_extreme_timestamps() {
    let mut t = MessageTracker::new();
    t.add_message(1, 10, 100, i64::MIN);
    t.add_message(1, 11, 100, i64::MAX);
    t.cleanup_at(i64::MAX);
    assert_eq!(ids_of(&t.get_user_messages(1)), vec![11]);
}

#[test]
fn cleanup_forgets_scan_ids_only_above_limit() {
    let mut t = MessageTracker::new();
    for id in 0..10_000u64 {
        t.add_message_from_scan(1, id, 1, 0);
        t.remove_message(id);
    }
    t.cleanup_at(0);
    // 10000 remembered ids are kept.
    t.add_message_from_scan(1, 5, 1, 0);
    assert_eq!(t.get_stats(), (0, 0));
    t.add_message_from_scan(1, 10_000, 1, 0);
    t.remove_message(10_000);
    t.cleanup_at(0);
    // 10001 remembered ids are forgotten.
    t.add_message_from_scan(1, 5, 1, 0);
    assert_eq!(t.get_stats(), (1, 1));
}

#[test]
fn cleanup_with_clock_keeps_recent_messages() {
    let mut t = MessageTracker::new();
    t.add_message(1, 10, 100, 0); // 1970: long expired
    t.add_message(1, 11, 100, i64::MAX); // far future: kept
    t.cleanup();
    assert_eq!(ids_of(&t.get_user_messages(1)), vec![11]);
}

#[test]
fn only_human_guild_messages_are_tracked() {
    assert!(should_track(false, true));
    assert!(!should_track(true, true));
    assert!(!should_track(false, false));
    assert!(!should_track(true, false));
}
