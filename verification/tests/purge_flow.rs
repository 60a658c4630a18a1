use discord_purge_bot::commands::purge::{PurgeOption, PurgeOptionValue, PurgeTally};
use discord_purge_bot::commands::purge_flow::{PurgeAction, PurgeEvent, PurgeFlow, PurgeReply};
use discord_purge_bot::services::message_tracker::MessageTracker;

fn target_options(user: u64, amount: Option<i64>) -> Vec<PurgeOption> {
    let mut options = vec![PurgeOption { name: "target".to_string(), value: PurgeOptionValue::User(user) }];
    if let Some(n) = amount {
        options.push(PurgeOption { name: "amount".to_string(), value: PurgeOptionValue::Integer(n) });
    }
    options
}

fn request(setting: Option<&str>, roles: Option<Vec<u64>>, in_guild: bool) -> PurgeEvent {
    PurgeEvent::Requested {
        allowed_role_setting: setting.map(|s| s.to_string()),
        member_roles: roles,
        in_guild,
    }
}

#[test]
fn purge_flow_runs_over_all_channels() {
    let mut tracker = MessageTracker::new();
    tracker.add_message(7, 1, 100, 10);
    tracker.add_message(7, 2, 200, 20);
    tracker.add_message(7, 3, 100, 30);
    tracker.add_message(8, 4, 100, 40);
    let mut flow = PurgeFlow::new();
    let action = flow.step(request(Some("5"), Some(vec![5]), true), &tracker);
    assert!(matches!(action, PurgeAction::CheckBotPermission));
    let action = flow.step(PurgeEvent::BotPermission { may_manage_messages: true }, &tracker);
    assert!(matches!(action, PurgeAction::Defer));
    let mut action = flow.step(PurgeEvent::Deferred { options: target_options(7, None) }, &tracker);
    let mut seen = Vec::new();
    loop {
        match action {
            PurgeAction::DeleteChannel(batch) => {
                let n = batch.message_ids.len();
                seen.push((batch.channel_id, batch.message_ids));
                let deleted = if batch.channel_id == 200 { None } else { Some(n) };
                action = flow.step(PurgeEvent::ChannelDone { deleted }, &tracker);
            }
            PurgeAction::Reply(reply) => {
                assert_eq!(
                    reply,
                    PurgeReply::Completed {
                        target: 7,
                        tally: PurgeTally { total_deleted: 2, channels_processed: 1, total_channels: 2 }
                    }
                );
                break;
            }
            other => panic!("unexpected {:?}", other),
        }
    }
    seen.sort();
    assert_eq!(seen, vec![(100, vec![1, 3]), (200, vec![2])]);
}

#[test]
fn purge_flow_with_amount_takes_latest() {
    let mut tracker = MessageTracker::new();
    tracker.add_message(7, 1, 100, 50);
    tracker.add_message(7, 2, 100, 10);
    let mut flow = PurgeFlow::new();
    flow.step(request(None, None, false), &tracker);
    let action = flow.step(PurgeEvent::Deferred { options: target_options(7, Some(1)) }, &tracker);
    match action {
        PurgeAction::DeleteChannel(batch) => assert_eq!(batch.message_ids, vec![1]),
        other => panic!("unexpected {:?}", other),
    }
}

#[test]
fn purge_flow_refusals() {
    let tracker = MessageTracker::new();
    let mut flow = PurgeFlow::new();
    assert!(matches!(flow.step(request(Some("5"), Some(vec![6]), true), &tracker), PurgeAction::Reply(PurgeReply::MissingRole)));
    let mut flow = PurgeFlow::new();
    assert!(matches!(flow.step(request(Some("5"), None, true), &tracker), PurgeAction::FailNoMember));
    let mut flow = PurgeFlow::new();
    flow.step(request(None, None, true), &tracker);
    assert!(matches!(
        flow.step(PurgeEvent::BotPermission { may_manage_messages: false }, &tracker),
        PurgeAction::Reply(PurgeReply::BotLacksPermission)
    ));
    let mut flow = PurgeFlow::new();
    assert!(matches!(flow.step(request(Some("x"), None, false), &tracker), PurgeAction::Defer));
    let options = vec![PurgeOption { name: "target".to_string(), value: PurgeOptionValue::Other }];
    assert!(matches!(flow.step(PurgeEvent::Deferred { options }, &tracker), PurgeAction::Reply(PurgeReply::InvalidUser)));
    let mut flow = PurgeFlow::new();
    flow.step(request(None, None, false), &tracker);
    assert!(matches!(
        flow.step(PurgeEvent::Deferred { options: target_options(7, None) }, &tracker),
        PurgeAction::Reply(PurgeReply::NothingFound { target: 7 })
    ));
}
