use discord_purge_bot::services::message_tracker::MessageTracker;
use discord_purge_bot::commands::purge::{
    check_role, group_by_channel, is_unknown_message_error, parse_role_id, purge_amount, purge_target,
    select_purge_messages, ChannelPurge, ChannelPurgeAction, ChunkOutcome, PurgeOption, PurgeOptionValue,
    PurgeTally, RoleCheck, DELETE_CHUNK_SIZE,
};
use discord_purge_bot::types::TrackedMessage;

#[test]
fn role_ids_parse_like_std() {
    for text in ["0", "42", "+42", "007", "18446744073709551615", "", "+", "-1", " 1", "1 ", "4a", "18446744073709551616", "++1", "99999999999999999999999"] {
        assert_eq!(parse_role_id(text), text.parse::<u64>().ok(), "text {:?}", text);
    }
}

#[test]
fn role_check_decisions() {
    let roles = vec![5u64, 7];
    assert_eq!(check_role(None, None), RoleCheck::Permitted);
    assert_eq!(check_role(Some("not a number"), None), RoleCheck::Permitted);
    assert_eq!(check_role(Some("7"), Some(&roles)), RoleCheck::Permitted);
    assert_eq!(check_role(Some("8"), Some(&roles)), RoleCheck::MissingRole);
    assert_eq!(check_role(Some("8"), None), RoleCheck::NoMember);
}

fn opt(name: &str, value: PurgeOptionValue) -> PurgeOption {
    PurgeOption { name: name.to_string(), value }
}

#[test]
fn options_are_read_by_first_name() {
    let options = vec![
        opt("amount", PurgeOptionValue::Integer(3)),
        opt("target", PurgeOptionValue::User(42)),
        opt("target", PurgeOptionValue::User(43)),
    ];
    assert_eq!(purge_target(&options), Some(42));
    assert_eq!(purge_amount(&options), Some(3));
    let options = vec![opt("target", PurgeOptionValue::Other), opt("amount", PurgeOptionValue::Other)];
    assert_eq!(purge_target(&options), None);
    assert_eq!(purge_amount(&options), None);
    assert_eq!(purge_target(&Vec::new()), None);
    let options = vec![opt("amount", PurgeOptionValue::Integer(-1))];
    assert_eq!(purge_amount(&options), Some(usize::MAX));
}

fn m(id: u64, channel: u64) -> TrackedMessage {
    TrackedMessage::new(id, channel, 0)
}

fn mt(id: u64, timestamp: i64) -> TrackedMessage {
    TrackedMessage::new(id, 1, timestamp)
}

#[test]
fn selection_takes_latest_messages_by_timestamp() {
    let msgs = vec![mt(1, 10), mt(2, 30), mt(3, 20), mt(4, 5)];
    assert_eq!(select_purge_messages(msgs.clone(), None), msgs);
    assert_eq!(select_purge_messages(msgs.clone(), Some(2)), vec![mt(2, 30), mt(3, 20)]);
    assert_eq!(select_purge_messages(msgs.clone(), Some(1)), vec![mt(2, 30)]);
    assert_eq!(select_purge_messages(msgs.clone(), Some(10)), msgs);
    assert_eq!(select_purge_messages(msgs.clone(), Some(0)), Vec::new());
    // Equal timestamps: the one later in the list counts as later.
    let tied = vec![mt(1, 7), mt(2, 7), mt(3, 7)];
    assert_eq!(select_purge_messages(tied, Some(2)), vec![mt(2, 7), mt(3, 7)]);
}

#[test]
fn selection_after_scan_takes_latest() {
    let mut t = MessageTracker::new();
    // A scan hands messages in newest first.
    t.add_message_from_scan(9, 3, 1, 300);
    t.add_message_from_scan(9, 2, 1, 200);
    t.add_message_from_scan(9, 1, 1, 100);
    let picked = select_purge_messages(t.get_user_messages(9), Some(1));
    assert_eq!(picked, vec![TrackedMessage::new(3, 1, 300)]);
}

#[test]
fn grouping_keeps_order_per_channel() {
    let msgs = vec![m(1, 10), m(2, 20), m(3, 10), m(4, 30), m(5, 20)];
    let groups = group_by_channel(&msgs);
    assert_eq!(groups.len(), 3);
    assert_eq!(groups[&10], vec![1, 3]);
    assert_eq!(groups[&20], vec![2, 5]);
    assert_eq!(groups[&30], vec![4]);
    assert!(group_by_channel(&Vec::new()).is_empty());
}

#[test]
fn unknown_message_errors_are_recognised() {
    assert!(is_unknown_message_error("Unknown Message (code 10008)"));
    assert!(is_unknown_message_error("10008"));
    assert!(!is_unknown_message_error("Missing Permissions (code 50013)"));
    assert!(!is_unknown_message_error("1000"));
}

#[test]
fn channel_purge_deletes_in_chunks() {
    let ids: Vec<u64> = (0..250).collect();
    let (mut purge, mut action) = ChannelPurge::start(ids);
    let mut chunks = Vec::new();
    loop {
        match action {
            ChannelPurgeAction::DeleteChunk(chunk) => {
                chunks.push(chunk);
                action = purge.step(ChunkOutcome::Deleted);
            }
            ChannelPurgeAction::Finished { deleted } => {
                assert_eq!(deleted, 250);
                break;
            }
            ChannelPurgeAction::Failed => panic!("unexpected failure"),
        }
    }
    assert_eq!(chunks.iter().map(|c| c.len()).collect::<Vec<_>>(), vec![DELETE_CHUNK_SIZE, DELETE_CHUNK_SIZE, 50]);
    assert_eq!(chunks[2][0], 200);
}

#[test]
fn channel_purge_skips_gone_messages_and_stops_on_other_errors() {
    let ids: Vec<u64> = (0..150).collect();
    let (mut purge, action) = ChannelPurge::start(ids.clone());
    assert!(matches!(action, ChannelPurgeAction::DeleteChunk(_)));
    let action = purge.step(ChunkOutcome::Rejected { error_text: "Unknown Message (10008)".to_string() });
    assert!(matches!(action, ChannelPurgeAction::DeleteChunk(ref c) if c.len() == 50));
    let action = purge.step(ChunkOutcome::Deleted);
    assert!(matches!(action, ChannelPurgeAction::Finished { deleted: 50 }));

    let (mut purge, _) = ChannelPurge::start(ids);
    let action = purge.step(ChunkOutcome::Rejected { error_text: "Missing Access (50001)".to_string() });
    assert!(matches!(action, ChannelPurgeAction::Failed));
}

#[test]
fn channel_purge_of_nothing_finishes_at_once() {
    let (_, action) = ChannelPurge::start(Vec::new());
    assert!(matches!(action, ChannelPurgeAction::Finished { deleted: 0 }));
}

#[test]
fn tally_counts_finished_channels() {
    let mut tally = PurgeTally::new(3);
    tally.record_channel(Some(5));
    tally.record_channel(None);
    tally.record_channel(Some(2));
    assert_eq!(tally, PurgeTally { total_deleted: 7, channels_processed: 2, total_channels: 3 });
}
