use crate::commands::purge::{
    among_latest, amount_of, channel_message_ids, check_role, group_by_channel,
    latest_in_prefix, latest_indices, law_groups_follow_channels, law_selection_is_latest,
    law_selection_size, lemma_latest_prefix_len, posted_in, purge_amount, purge_selection,
    purge_target, role_decision, select_purge_messages, target_of, PurgeOption, PurgeTally,
    RoleCheck,
};
use crate::services::message_lists::ids_distinct;
use crate::services::message_tracker::{messages_of, model_wf, MessageTracker, TrackerModel};
use crate::types::TrackedMessage;
use std::collections::HashMap;
use vstd::prelude::*;

verus! {

/// One channel's share of a purge: the channel and the ids to delete there.
#[derive(Debug)]
pub struct ChannelBatch {
    pub channel_id: u64,
    pub message_ids: Vec<u64>,
}

/// Where the handling of a purge request stands.
#[derive(Debug, Clone, Copy, PartialEq, Eq)]
pub enum PurgeStage {
    /// Nothing is known of the request yet.
    Start,
    /// The member may purge; waiting to learn whether the bot may manage messages.
    CheckingBot,
    /// The reply is deferred; waiting for the command's options.
    Reading,
    /// Deleting, channel by channel.
    Deleting,
    /// The request is answered.
    Finished,
}

/// What the bot answers a purge request with.
#[derive(Debug, Clone, Copy, PartialEq, Eq)]
pub enum PurgeReply {
    /// The member lacks the configured role.
    MissingRole,
    /// The bot may not manage messages in the guild.
    BotLacksPermission,
    /// The `target` option names no user.
    InvalidUser,
    /// The target has no tracked messages to purge.
    NothingFound { target: u64 },
    /// The purge of `target` ran over all channels, with these results.
    Completed { target: u64, tally: PurgeTally },
}

/// What the handling of a purge request asks its driver to do next.
#[derive(Debug)]
pub enum PurgeAction {
    /// Find out whether the bot may manage messages in the guild.
    CheckBotPermission,
    /// Defer the reply, then hand in the command's options.
    Defer,
    /// Answer the member; the request is done.
    Reply(PurgeReply),
    /// The request names no member although a role is required; it fails.
    FailNoMember,
    /// Delete these messages in this channel, then hand in the outcome.
    DeleteChannel(ChannelBatch),
}

/// What the driver hands in.
pub enum PurgeEvent {
    /// The request: the configured role setting, the member's roles if there is
    /// a member, and whether it came from a guild.
    Requested { allowed_role_setting: Option<String>, member_roles: Option<Vec<u64>>, in_guild: bool },
    /// Whether the bot may manage messages in the guild.
    BotPermission { may_manage_messages: bool },
    /// The reply is deferred; these are the command's options.
    Deferred { options: Vec<PurgeOption> },
    /// The last channel's deletion ended: `Some` with the number deleted, or
    /// `None` when it failed.
    ChannelDone { deleted: Option<usize> },
}

/// The handling of one purge request, step by step.
pub struct PurgeFlow {
    stage: PurgeStage,
    target: u64,
    channels: Vec<ChannelBatch>,
    tally: PurgeTally,
}

/// A purge request's handling, as mathematical values.
pub struct PurgeFlowModel {
    pub stage: PurgeStage,
    /// The user being purged, once known.
    pub target: u64,
    /// The channels still to purge, taken from the end.
    pub channels: Seq<(u64, Seq<u64>)>,
    pub tally: PurgeTally,
}

pub open spec fn batch_view(b: ChannelBatch) -> (u64, Seq<u64>) {
    (b.channel_id, b.message_ids@)
}

pub open spec fn batches_view(bs: Seq<ChannelBatch>) -> Seq<(u64, Seq<u64>)> {
    Seq::new(bs.len(), |i: int| batch_view(bs[i]))
}

/// Whether `plan` lists each channel that holds messages of `msgs` exactly
/// once, with the ids of its messages, in order.
pub open spec fn is_channel_plan(plan: Seq<(u64, Seq<u64>)>, msgs: Seq<TrackedMessage>) -> bool {
    &&& forall|i: int, j: int| 0 <= i < plan.len() && 0 <= j < plan.len() && i != j ==> plan[i].0 != plan[j].0
    &&& forall|i: int|
        0 <= i < plan.len() ==> channel_message_ids(msgs, #[trigger] plan[i].0).len() > 0 && plan[i].1
            == channel_message_ids(msgs, plan[i].0)
    &&& forall|c: u64|
        #[trigger] channel_message_ids(msgs, c).len() > 0 ==> exists|i: int| 0 <= i < plan.len() && plan[i].0 == c
}

/// The tally after a channel's deletion ended with `deleted`.
pub open spec fn tally_after(t: PurgeTally, deleted: Option<usize>) -> PurgeTally {
    match deleted {
        Some(n) => PurgeTally {
            total_deleted: (t.total_deleted + n) as usize,
            channels_processed: (t.channels_processed + 1) as usize,
            total_channels: t.total_channels,
        },
        None => t,
    }
}

/// Whether `event` is what a flow at `stage` waits for.
pub open spec fn event_fits(stage: PurgeStage, event: PurgeEvent) -> bool {
    match event {
        PurgeEvent::Requested { .. } => stage == PurgeStage::Start,
        PurgeEvent::BotPermission { .. } => stage == PurgeStage::CheckingBot,
        PurgeEvent::Deferred { .. } => stage == PurgeStage::Reading,
        PurgeEvent::ChannelDone { .. } => stage == PurgeStage::Deleting,
    }
}

/// What `step` makes of flow `f` and which action it asks for, given `event`
/// and the tracker's state `tracker`.
pub open spec fn purge_step_spec(
    f: PurgeFlowModel,
    event: PurgeEvent,
    tracker: TrackerModel,
    g: PurgeFlowModel,
    action: PurgeAction,
) -> bool {
    match event {
        PurgeEvent::Requested { allowed_role_setting, member_roles, in_guild } => {
            let rc = role_decision(
                match allowed_role_setting {
                    Some(t) => Some(t@),
                    None => None,
                },
                match member_roles {
                    Some(v) => Some(v@),
                    None => None,
                },
            );
            match rc {
                RoleCheck::NoMember => g == PurgeFlowModel { stage: PurgeStage::Finished, ..f }
                    && action is FailNoMember,
                RoleCheck::MissingRole => g == PurgeFlowModel { stage: PurgeStage::Finished, ..f }
                    && action == PurgeAction::Reply(PurgeReply::MissingRole),
                RoleCheck::Permitted => if in_guild {
                    g == PurgeFlowModel { stage: PurgeStage::CheckingBot, ..f } && action is CheckBotPermission
                } else {
                    g == PurgeFlowModel { stage: PurgeStage::Reading, ..f } && action is Defer
                },
            }
        },
        PurgeEvent::BotPermission { may_manage_messages } => if may_manage_messages {
            g == PurgeFlowModel { stage: PurgeStage::Reading, ..f } && action is Defer
        } else {
            g == PurgeFlowModel { stage: PurgeStage::Finished, ..f } && action
                == PurgeAction::Reply(PurgeReply::BotLacksPermission)
        },
        PurgeEvent::Deferred { options } => match target_of(options@) {
            None => g == PurgeFlowModel { stage: PurgeStage::Finished, ..f } && action
                == PurgeAction::Reply(PurgeReply::InvalidUser),
            Some(target) => {
                let msgs = purge_selection(messages_of(tracker, target), amount_of(options@));
                if msgs.len() == 0 {
                    g == PurgeFlowModel { stage: PurgeStage::Finished, ..f } && action
                        == PurgeAction::Reply(PurgeReply::NothingFound { target })
                } else {
                    &&& g.stage == PurgeStage::Deleting
                    &&& g.target == target
                    &&& action matches PurgeAction::DeleteChannel(b) && is_channel_plan(
                        g.channels.push(batch_view(b)),
                        msgs,
                    )
                    &&& g.tally == PurgeTally {
                        total_deleted: 0,
                        channels_processed: 0,
                        total_channels: (g.channels.len() + 1) as usize,
                    }
                }
            },
        },
        PurgeEvent::ChannelDone { deleted } => {
            let t = tally_after(f.tally, deleted);
            if f.channels.len() == 0 {
                g == PurgeFlowModel { stage: PurgeStage::Finished, tally: t, ..f } && action
                    == PurgeAction::Reply(PurgeReply::Completed { target: f.target, tally: t })
            } else {
                &&& g == PurgeFlowModel { channels: f.channels.drop_last(), tally: t, ..f }
                &&& action matches PurgeAction::DeleteChannel(b) && batch_view(b) == f.channels.last()
            }
        },
    }
}

impl View for PurgeFlow {
    type V = PurgeFlowModel;

    closed spec fn view(&self) -> PurgeFlowModel {
        PurgeFlowModel {
            stage: self.stage,
            target: self.target,
            channels: batches_view(self.channels@),
            tally: self.tally,
        }
    }
}

/// Turns the groups of ids by channel into one batch per channel.
fn batches_from_groups(groups: HashMap<u64, Vec<u64>>) -> (batches: Vec<ChannelBatch>)
    ensures
        forall|i: int, j: int|
            0 <= i < batches.len() && 0 <= j < batches.len() && i != j ==> batches@[i].channel_id
                != batches@[j].channel_id,
        forall|i: int|
            0 <= i < batches.len() ==> groups@.contains_key(#[trigger] batches@[i].channel_id)
                && batches@[i].message_ids@ == groups@[batches@[i].channel_id]@,
        forall|c: u64| #[trigger]
            groups@.contains_key(c) ==> exists|i: int| 0 <= i < batches.len() && batches@[i].channel_id == c,
{
    broadcast use vstd::std_specs::hash::group_hash_axioms;

    let mut ids: Vec<u64> = Vec::new();
    for k in it: groups.keys()
        invariant
            ids@ == it.seq().take(it.index()).unref(),
            it.seq().unref().to_set() == groups@.dom(),
            it.seq().unref().no_duplicates(),
            it.index() == it.seq().len() ==> {
                &&& ids@.to_set() == groups@.dom()
                &&& ids@.no_duplicates()
            },
    {
        ids.push(*k);
        assert(ids@ =~= it.seq().take(it.index() + 1).unref());
        assert(it.seq().take(it.seq().len() as int) =~= it.seq());
    }
    let ghost original = groups@;
    let mut groups = groups;
    let mut batches: Vec<ChannelBatch> = Vec::new();
    let mut i: usize = 0;
    while i < ids.len()
        invariant
            ids@.to_set() == original.dom(),
            ids@.no_duplicates(),
            i <= ids.len(),
            batches.len() == i,
            forall|j: int| 0 <= j < i ==> #[trigger] batches@[j].channel_id == ids@[j],
            forall|j: int| 0 <= j < i ==> #[trigger] batches@[j].message_ids@ == original[ids@[j]]@,
            forall|c: u64| #[trigger]
                groups@.contains_key(c) ==> original.contains_key(c) && groups@[c] == original[c],
            forall|j: int| i <= j < ids.len() ==> #[trigger] groups@.contains_key(ids@[j]),
        decreases ids.len() - i,
    {
        let c = ids[i];
        assert(groups@.contains_key(ids@[i as int]));
        let ghost before = batches@;
        assert(groups@[c] == original[c]);
        let message_ids = groups.remove(&c).unwrap();
        assert(message_ids@ == original[c]@);
        batches.push(ChannelBatch { channel_id: c, message_ids });
        proof {
            assert(batches@ == before.push(batches@[i as int]));
            assert forall|j: int| 0 <= j < i + 1 implies #[trigger] batches@[j].message_ids@ == original[ids@[j]]@ by {
                if j < i {
                    assert(batches@[j] == before[j]);
                    assert(before[j].message_ids@ == original[ids@[j]]@);
                } else {
                    assert(batches@[j].channel_id == c);
                    assert(ids@[j] == c);
                }
            }
            assert forall|j: int| i < j < ids.len() implies #[trigger] groups@.contains_key(ids@[j]) by {
                assert(ids@[j] != ids@[i as int]);
            }
        }
        i = i + 1;
    }
    proof {
        assert forall|a: int| 0 <= a < batches.len() implies original.contains_key(
            #[trigger] batches@[a].channel_id,
        ) by {
            assert(ids@.to_set().contains(ids@[a]));
        }
        assert forall|c: u64| #[trigger] original.contains_key(c) implies exists|a: int|
            0 <= a < batches.len() && batches@[a].channel_id == c by {
            assert(ids@.to_set().contains(c));
            let a = choose|a: int| 0 <= a < ids@.len() && ids@[a] == c;
            assert(batches@[a].channel_id == c);
        }
    }
    batches
}

impl PurgeFlow {
    /// A purge request that has not been looked at yet.
    pub fn new() -> (f: Self)
        ensures
            f@ == (PurgeFlowModel {
                stage: PurgeStage::Start,
                target: 0,
                channels: Seq::empty(),
                tally: PurgeTally { total_deleted: 0, channels_processed: 0, total_channels: 0 },
            }),
    {
        let f = PurgeFlow {
            stage: PurgeStage::Start,
            target: 0,
            channels: Vec::new(),
            tally: PurgeTally::new(0),
        };
        assert(f@.channels =~= Seq::<(u64, Seq<u64>)>::empty());
        f
    }

    /// The results counted so far.
    pub fn tally(&self) -> (t: PurgeTally)
        ensures
            t == self@.tally,
    {
        self.tally
    }

    /// Takes in what the driver saw and says what to do next: checks the
    /// member's role and the bot's permission, reads the options, picks the
    /// target's messages and groups them by channel, and counts the results
    /// channel by channel.
    pub fn step(&mut self, event: PurgeEvent, tracker: &MessageTracker) -> (action: PurgeAction)
        requires
            event_fits(old(self)@.stage, event),
            event matches PurgeEvent::ChannelDone { deleted } ==> (deleted matches Some(n) ==> old(
                self,
            )@.tally.total_deleted + n <= usize::MAX && old(self)@.tally.channels_processed
                < usize::MAX),
        ensures
            purge_step_spec(old(self)@, event, tracker@, final(self)@, action),
    {
        match event {
            PurgeEvent::Requested { allowed_role_setting, member_roles, in_guild } => {
                let setting = match &allowed_role_setting {
                    Some(t) => Some(t.as_str()),
                    None => None,
                };
                match check_role(setting, member_roles.as_ref()) {
                    RoleCheck::NoMember => {
                        self.stage = PurgeStage::Finished;
                        PurgeAction::FailNoMember
                    },
                    RoleCheck::MissingRole => {
                        self.stage = PurgeStage::Finished;
                        PurgeAction::Reply(PurgeReply::MissingRole)
                    },
                    RoleCheck::Permitted => if in_guild {
                        self.stage = PurgeStage::CheckingBot;
                        PurgeAction::CheckBotPermission
                    } else {
                        self.stage = PurgeStage::Reading;
                        PurgeAction::Defer
                    },
                }
            },
            PurgeEvent::BotPermission { may_manage_messages } => if may_manage_messages {
                self.stage = PurgeStage::Reading;
                PurgeAction::Defer
            } else {
                self.stage = PurgeStage::Finished;
                PurgeAction::Reply(PurgeReply::BotLacksPermission)
            },
            PurgeEvent::Deferred { options } => match purge_target(&options) {
                None => {
                    self.stage = PurgeStage::Finished;
                    PurgeAction::Reply(PurgeReply::InvalidUser)
                },
                Some(target) => {
                    let amount = purge_amount(&options);
                    let messages = tracker.get_user_messages(target);
                    let selected = select_purge_messages(messages, amount);
                    if selected.len() == 0 {
                        self.stage = PurgeStage::Finished;
                        return PurgeAction::Reply(PurgeReply::NothingFound { target });
                    }
                    let ghost msgs = selected@;
                    let groups = group_by_channel(&selected);
                    let ghost gm = groups@;
                    let mut batches = batches_from_groups(groups);
                    proof {
                        law_groups_follow_channels(msgs, msgs[0].channel_id);
                        assert(channel_message_ids(msgs, msgs[0].channel_id).len() > 0);
                    }
                    let ghost all = batches_view(batches@);
                    proof {
                        assert(is_channel_plan(all, msgs)) by {
                            assert forall|c: u64| #[trigger]
                                channel_message_ids(msgs, c).len() > 0 implies exists|i: int|
                                0 <= i < all.len() && all[i].0 == c by {
                                assert(gm.contains_key(c));
                                let i = choose|i: int| 0 <= i < batches.len() && batches@[i].channel_id == c;
                                assert(all[i].0 == c);
                            }
                            assert forall|i: int| 0 <= i < all.len() implies channel_message_ids(
                                msgs,
                                #[trigger] all[i].0,
                            ).len() > 0 && all[i].1 == channel_message_ids(msgs, all[i].0) by {
                                assert(all[i] == batch_view(batches@[i]));
                                assert(gm.contains_key(batches@[i].channel_id));
                            }
                        }
                    }
                    let n = batches.len();
                    let last = batches.pop().unwrap();
                    proof {
                        assert(all =~= batches_view(batches@).push(batch_view(last)));
                    }
                    self.tally = PurgeTally::new(n);
                    self.target = target;
                    self.channels = batches;
                    self.stage = PurgeStage::Deleting;
                    PurgeAction::DeleteChannel(last)
                },
            },
            PurgeEvent::ChannelDone { deleted } => {
                self.tally.record_channel(deleted);
                match self.channels.pop() {
                    None => {
                        self.stage = PurgeStage::Finished;
                        PurgeAction::Reply(PurgeReply::Completed { target: self.target, tally: self.tally })
                    },
                    Some(b) => {
                        proof {
                            assert(batches_view(self.channels@) =~= batches_view(old(self).channels@).drop_last());
                        }
                        PurgeAction::DeleteChannel(b)
                    },
                }
            },
        }
    }
}

/// Whether some channel of `plan` lists the id `id`.
pub open spec fn plan_holds_id(plan: Seq<(u64, Seq<u64>)>, id: u64) -> bool {
    exists|i: int, j: int| 0 <= i < plan.len() && 0 <= j < plan[i].1.len() && #[trigger] plan[i].1[j] == id
}

/// What a purge with an amount `n` deletes: the target's `n` latest tracked
/// messages. Once the options are read, the flow hands out channels exactly
/// when the target has messages and `n > 0`; every id it hands out is one of the
/// target's messages and stands under that message's channel; a message is
/// handed out exactly when it is among the `n` latest (every message handed
/// out is at least as recent as every one left); and `min(n, count)` of the
/// target's messages are handed out.
pub proof fn law_purge_deletes_latest(
    f: PurgeFlowModel,
    options: Vec<PurgeOption>,
    tracker: TrackerModel,
    g: PurgeFlowModel,
    action: PurgeAction,
    target: u64,
    n: usize,
)
    requires
        model_wf(tracker),
        purge_step_spec(f, PurgeEvent::Deferred { options }, tracker, g, action),
        target_of(options@) == Some(target),
        amount_of(options@) == Some(n),
    ensures
        ({
            let msgs = messages_of(tracker, target);
            let want = if n < msgs.len() { n as int } else { msgs.len() as int };
            &&& (action is DeleteChannel <==> want > 0)
            &&& action matches PurgeAction::DeleteChannel(b) ==> {
                let plan = g.channels.push(batch_view(b));
                &&& forall|i: int, j: int|
                    0 <= i < plan.len() && 0 <= j < plan[i].1.len() ==> exists|k: int|
                        0 <= k < msgs.len() && msgs[k].message_id == #[trigger] plan[i].1[j]
                            && msgs[k].channel_id == plan[i].0
                &&& forall|k1: int, k2: int|
                    0 <= k1 < msgs.len() && 0 <= k2 < msgs.len() && plan_holds_id(
                        plan,
                        #[trigger] msgs[k1].message_id,
                    ) && !plan_holds_id(plan, #[trigger] msgs[k2].message_id) ==> msgs[k1].timestamp
                        >= msgs[k2].timestamp
                &&& Set::new(|k: int| 0 <= k < msgs.len() && plan_holds_id(plan, msgs[k].message_id)).len()
                    == want
            }
        }),
{
    let msgs = messages_of(tracker, target);
    let len = msgs.len() as int;
    let sel = latest_in_prefix(msgs, n as nat, len);
    assert(sel == purge_selection(msgs, Some(n)));
    law_selection_size(msgs, n as nat);
    law_selection_is_latest(msgs, n as nat);
    lemma_latest_in_prefix_members(msgs, n as nat, len);
    assert(ids_distinct(msgs)) by {
        if tracker.messages.contains_key(target) {
        } else {
            assert(msgs.len() == 0);
        }
    }
    if let PurgeAction::DeleteChannel(b) = action {
        let plan = g.channels.push(batch_view(b));
        assert(is_channel_plan(plan, sel));
        law_groups_follow_channels(sel, 0);
        // Every id in the plan is a selected message's id, under its channel.
        assert forall|i: int, j: int| 0 <= i < plan.len() && 0 <= j < plan[i].1.len() implies exists|q: int|
            0 <= q < sel.len() && sel[q].message_id == #[trigger] plan[i].1[j] && sel[q].channel_id == plan[i].0 by {
            law_groups_follow_channels(sel, plan[i].0);
            assert(plan[i].1 == channel_message_ids(sel, plan[i].0));
            assert(posted_in(sel, plan[i].0, channel_message_ids(sel, plan[i].0)[j]));
        }
        // A message's id is in the plan exactly when the message is among the latest.
        assert forall|k: int| 0 <= k < len implies (plan_holds_id(plan, #[trigger] msgs[k].message_id)
            <==> among_latest(msgs, n as nat, k)) by {
            if among_latest(msgs, n as nat, k) {
                assert(sel.contains(msgs[k]));
                let q = choose|q: int| 0 <= q < sel.len() && sel[q] == msgs[k];
                let c = msgs[k].channel_id;
                assert(sel[q].channel_id == c);
                let group = channel_message_ids(sel, c);
                assert(group.contains(msgs[k].message_id));
                let i = choose|i: int| 0 <= i < plan.len() && plan[i].0 == c;
                assert(plan[i].0 == c);
                let j = choose|j: int| 0 <= j < group.len() && group[j] == msgs[k].message_id;
                assert(plan[i].1[j] == msgs[k].message_id);
            }
            if plan_holds_id(plan, msgs[k].message_id) {
                let (i, j) = choose|i: int, j: int|
                    0 <= i < plan.len() && 0 <= j < plan[i].1.len() && #[trigger] plan[i].1[j] == msgs[k].message_id;
                let q = choose|q: int|
                    0 <= q < sel.len() && sel[q].message_id == #[trigger] plan[i].1[j] && sel[q].channel_id
                        == plan[i].0;
                assert(sel.contains(sel[q]));
                let k2 = choose|k2: int| 0 <= k2 < len && among_latest(msgs, n as nat, k2) && msgs[k2] == sel[q];
                assert(k2 == k);
            }
        }
        assert forall|i: int, j: int|
            0 <= i < plan.len() && 0 <= j < plan[i].1.len() implies exists|k: int|
            0 <= k < msgs.len() && msgs[k].message_id == #[trigger] plan[i].1[j] && msgs[k].channel_id == plan[i].0 by {
            let q = choose|q: int|
                0 <= q < sel.len() && sel[q].message_id == plan[i].1[j] && sel[q].channel_id == plan[i].0;
            assert(sel.contains(sel[q]));
            let k = choose|k: int| 0 <= k < len && among_latest(msgs, n as nat, k) && msgs[k] == sel[q];
            assert(msgs[k].message_id == plan[i].1[j]);
        }
        lemma_latest_prefix_len(msgs, n as nat, len);
        assert(Set::new(|k: int| 0 <= k < msgs.len() && plan_holds_id(plan, msgs[k].message_id)) =~= latest_indices(
            msgs,
            n as nat,
            len,
        ));
    }
}

/// A message is in the latest-`n` selection of the first `k` messages exactly
/// when it is one of them that is among the `n` latest.
proof fn lemma_latest_in_prefix_members(msgs: Seq<TrackedMessage>, n: nat, k: int)
    requires
        0 <= k <= msgs.len(),
    ensures
        forall|x: TrackedMessage|
            latest_in_prefix(msgs, n, k).contains(x) <==> exists|m: int|
                0 <= m < k && among_latest(msgs, n, m) && #[trigger] msgs[m] == x,
    decreases k,
{
    if k > 0 {
        lemma_latest_in_prefix_members(msgs, n, k - 1);
        let before = latest_in_prefix(msgs, n, k - 1);
        assert forall|x: TrackedMessage|
            latest_in_prefix(msgs, n, k).contains(x) <==> exists|m: int|
                0 <= m < k && among_latest(msgs, n, m) && #[trigger] msgs[m] == x by {
            if among_latest(msgs, n, k - 1) {
                let now = before.push(msgs[k - 1]);
                if now.contains(x) {
                    let j = choose|j: int| 0 <= j < now.len() && now[j] == x;
                    if j < before.len() {
                        assert(before[j] == x);
                        assert(before.contains(x));
                    } else {
                        assert(msgs[k - 1] == x);
                    }
                }
                if exists|m: int| 0 <= m < k && among_latest(msgs, n, m) && #[trigger] msgs[m] == x {
                    let m = choose|m: int| 0 <= m < k && among_latest(msgs, n, m) && #[trigger] msgs[m] == x;
                    if m < k - 1 {
                        assert(before.contains(x));
                        let j = choose|j: int| 0 <= j < before.len() && before[j] == x;
                        assert(now[j] == x);
                    } else {
                        assert(now[before.len() as int] == x);
                    }
                }
            } else {
                if exists|m: int| 0 <= m < k && among_latest(msgs, n, m) && #[trigger] msgs[m] == x {
                    let m = choose|m: int| 0 <= m < k && among_latest(msgs, n, m) && #[trigger] msgs[m] == x;
                    assert(m < k - 1);
                }
            }
        }
    }
}

} // verus!
