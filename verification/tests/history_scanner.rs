use discord_purge_bot::services::history_scanner::{
    ChannelScan, HistoryScanner, ScanAction, ScanEvent, ScannedMessage, MAX_MESSAGES_PER_CHANNEL,
    SCAN_RETENTION_PERIOD_MS,
};
use discord_purge_bot::services::message_tracker::MessageTracker;

const NOW: i64 = 1_700_000_000_000;

fn msg(id: u64, author: u64, bot: bool, age_ms: i64) -> ScannedMessage {
    ScannedMessage { message_id: id, channel_id: 500, author_id: author, author_is_bot: bot, timestamp: NOW - age_ms }
}

#[test]
fn scan_starts_by_fetching_newest() {
    let (scan, action) = HistoryScanner::begin_channel_scan_at(NOW);
    assert_eq!(scan.count, 0);
    assert_eq!(scan.last_id, None);
    assert_eq!(scan.now, NOW);
    assert_eq!(action, ScanAction::Fetch { before: None, pause_first: false });
    let (scan, action) = HistoryScanner::begin_channel_scan();
    assert_eq!(scan.count, 0);
    assert_eq!(action, ScanAction::Fetch { before: None, pause_first: false });
}

#[test]
fn scan_tracks_people_and_skips_bots() {
    let mut tracker = MessageTracker::new();
    let (mut scan, _) = HistoryScanner::begin_channel_scan_at(NOW);
    let batch = vec![msg(30, 1, false, 10), msg(29, 9, true, 20), msg(28, 2, false, 30)];
    let action = HistoryScanner::scan_step(&mut scan, &mut tracker, ScanEvent::Batch(batch));
    assert_eq!(action, ScanAction::Fetch { before: Some(28), pause_first: true });
    assert_eq!(scan.count, 2);
    assert_eq!(scan.last_id, Some(28));
    assert_eq!(tracker.get_stats(), (2, 2));
    assert!(tracker.get_user_messages(9).is_empty());
    assert_eq!(tracker.get_user_message_ids(2), vec![(28, 500)]);
}

#[test]
fn scan_skips_messages_a_scan_already_handed_in() {
    let mut tracker = MessageTracker::new();
    let (mut scan, _) = HistoryScanner::begin_channel_scan_at(NOW);
    HistoryScanner::scan_step(&mut scan, &mut tracker, ScanEvent::Batch(vec![msg(30, 1, false, 10)]));
    tracker.remove_message(30);
    let (mut scan, _) = HistoryScanner::begin_channel_scan_at(NOW);
    HistoryScanner::scan_step(&mut scan, &mut tracker, ScanEvent::Batch(vec![msg(30, 2, false, 10)]));
    assert_eq!(tracker.get_stats(), (0, 0));
}

#[test]
fn scan_stops_at_first_stale_message() {
    let mut tracker = MessageTracker::new();
    let (mut scan, _) = HistoryScanner::begin_channel_scan_at(NOW);
    let batch = vec![
        msg(30, 1, false, 10),
        msg(29, 1, false, SCAN_RETENTION_PERIOD_MS), // exactly the period: not stale
        msg(28, 1, false, SCAN_RETENTION_PERIOD_MS + 1), // stale: ends the scan
        msg(27, 1, false, 5),
    ];
    let action = HistoryScanner::scan_step(&mut scan, &mut tracker, ScanEvent::Batch(batch));
    assert_eq!(action, ScanAction::Finish { message_count: 2, pause_first: false });
    assert_eq!(scan.last_id, Some(29));
    assert_eq!(tracker.get_stats(), (1, 2));
}

#[test]
fn empty_batch_or_failure_ends_scan() {
    let mut tracker = MessageTracker::new();
    let mut scan = ChannelScan { now: NOW, count: 7, last_id: Some(3) };
    let action = HistoryScanner::scan_step(&mut scan, &mut tracker, ScanEvent::Batch(Vec::new()));
    assert_eq!(action, ScanAction::Finish { message_count: 7, pause_first: false });
    let action = HistoryScanner::scan_step(&mut scan, &mut tracker, ScanEvent::FetchFailed);
    assert_eq!(action, ScanAction::Finish { message_count: 7, pause_first: false });
    assert_eq!(scan.last_id, Some(3));
}

#[test]
fn scan_finishes_after_enough_messages() {
    let mut tracker = MessageTracker::new();
    let (mut scan, _) = HistoryScanner::begin_channel_scan_at(NOW);
    let mut next_id: u64 = 10_000;
    let mut action = ScanAction::Fetch { before: None, pause_first: false };
    let mut batches = 0;
    while let ScanAction::Fetch { .. } = action {
        let batch: Vec<ScannedMessage> = (0..50)
            .map(|_| {
                next_id -= 1;
                msg(next_id, next_id % 7, false, 1)
            })
            .collect();
        action = HistoryScanner::scan_step(&mut scan, &mut tracker, ScanEvent::Batch(batch));
        batches += 1;
    }
    assert_eq!(batches, 10);
    assert_eq!(action, ScanAction::Finish { message_count: MAX_MESSAGES_PER_CHANNEL, pause_first: true });
    assert_eq!(tracker.get_stats().1, MAX_MESSAGES_PER_CHANNEL);
}
