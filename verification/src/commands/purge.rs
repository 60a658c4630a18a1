use crate::types::TrackedMessage;
use std::collections::HashMap;
use vstd::prelude::*;

verus! {

/// Whether `c` is one of the ASCII digits `0` to `9`.
pub open spec fn is_ascii_digit(c: char) -> bool {
    '0' <= c && c <= '9'
}

/// The number that the decimal digits `s` spell.
pub open spec fn digits_value(s: Seq<char>) -> nat
    decreases s.len(),
{
    if s.len() == 0 {
        0
    } else {
        digits_value(s.drop_last()) * 10 + (s.last() as nat - '0' as nat) as nat
    }
}

/// `s` without one leading `+`.
pub open spec fn unsigned_digits(s: Seq<char>) -> Seq<char> {
    if s.len() > 0 && s[0] == '+' {
        s.drop_first()
    } else {
        s
    }
}

/// How text reads as a `u64`: an optional `+`, then one or more decimal
/// digits and nothing else, spelling a number no larger than `u64::MAX`.
pub open spec fn parsed_u64(s: Seq<char>) -> Option<u64> {
    let d = unsigned_digits(s);
    if d.len() > 0 && (forall|i: int| 0 <= i < d.len() ==> is_ascii_digit(#[trigger] d[i]))
        && digits_value(d) <= u64::MAX {
        Some(digits_value(d) as u64)
    } else {
        None
    }
}

/// Reads a role id from text, as `str::parse::<u64>` does.
pub fn parse_role_id(text: &str) -> (id: Option<u64>)
    ensures
        id == parsed_u64(text@),
{
    let mut value: u64 = 0;
    let mut too_big = false;
    let mut any_digit = false;
    let mut at_start = true;
    let ghost mut digits: Seq<char> = Seq::empty();
    for c in it: text.chars()
        invariant
            it.seq() == text@,
            at_start == (it.index() == 0),
            digits == unsigned_digits(it.seq().take(it.index())),
            it.index() == it.seq().len() ==> digits == unsigned_digits(text@),
            forall|i: int| 0 <= i < digits.len() ==> is_ascii_digit(#[trigger] digits[i]),
            any_digit == (digits.len() > 0),
            too_big == (digits_value(digits) > u64::MAX),
            !too_big ==> value == digits_value(digits),
    {
        let ghost prefix = it.seq().take(it.index());
        proof {
            assert(it.seq().take(it.index() + 1) =~= prefix.push(c));
        }
        if at_start && c == '+' {
            proof {
                assert(prefix.push(c).drop_first() =~= Seq::<char>::empty());
            }
        } else {
            proof {
                if prefix.len() > 0 && prefix[0] == '+' {
                    assert(prefix.push(c).drop_first() =~= prefix.drop_first().push(c));
                }
                assert(unsigned_digits(prefix.push(c)) =~= digits.push(c));
            }
            if !('0' <= c && c <= '9') {
                proof {
                    let whole = unsigned_digits(text@);
                    let k = digits.len() as int;
                    assert(whole[k] == c) by {
                        if text@.len() > 0 && text@[0] == '+' {
                            assert(whole[k] == text@[k + 1]);
                        } else {
                            assert(whole[k] == text@[k]);
                        }
                    }
                }
                return None;
            }
            let d: u64 = (c as u64) - ('0' as u64);
            proof {
                assert(digits.push(c).drop_last() =~= digits);
            }
            if !too_big {
                match value.checked_mul(10) {
                    Some(v10) => match v10.checked_add(d) {
                        Some(v) => {
                            value = v;
                        },
                        None => {
                            too_big = true;
                        },
                    },
                    None => {
                        too_big = true;
                    },
                }
            }
            any_digit = true;
            proof {
                digits = digits.push(c);
            }
        }
        at_start = false;
        proof {
            assert(it.seq().take(it.seq().len() as int) =~= it.seq());
        }
    }
    if any_digit && !too_big {
        Some(value)
    } else {
        None
    }
}

/// Whether the member who asked for a purge may run it.
#[derive(Debug, Clone, Copy, PartialEq, Eq)]
pub enum RoleCheck {
    /// No role is required, or the member has it.
    Permitted,
    /// A role is required and the member does not have it.
    MissingRole,
    /// A role is required but the request names no member.
    NoMember,
}

/// The decision of `check_role`: a setting that does not read as a role id
/// requires nothing.
pub open spec fn role_decision(setting: Option<Seq<char>>, roles: Option<Seq<u64>>) -> RoleCheck {
    match setting {
        None => RoleCheck::Permitted,
        Some(text) => match parsed_u64(text) {
            None => RoleCheck::Permitted,
            Some(role) => match roles {
                None => RoleCheck::NoMember,
                Some(r) => if r.contains(role) {
                    RoleCheck::Permitted
                } else {
                    RoleCheck::MissingRole
                },
            },
        },
    }
}

/// Decides whether a member may purge, given the configured role (the text of
/// the setting, if it is set) and the member's role ids (if there is a member).
pub fn check_role(allowed_role_setting: Option<&str>, member_roles: Option<&Vec<u64>>) -> (r: RoleCheck)
    ensures
        r == role_decision(
            match allowed_role_setting {
                Some(t) => Some(t@),
                None => None,
            },
            match member_roles {
                Some(v) => Some(v@),
                None => None,
            },
        ),
{
    match allowed_role_setting {
        None => RoleCheck::Permitted,
        Some(text) => match parse_role_id(text) {
            None => RoleCheck::Permitted,
            Some(role) => match member_roles {
                None => RoleCheck::NoMember,
                Some(roles) => if has_role(roles, role) {
                    RoleCheck::Permitted
                } else {
                    RoleCheck::MissingRole
                },
            },
        },
    }
}

/// Whether `roles` holds `role`.
fn has_role(roles: &Vec<u64>, role: u64) -> (b: bool)
    ensures
        b == roles@.contains(role),
{
    let mut i: usize = 0;
    while i < roles.len()
        invariant
            i <= roles.len(),
            forall|j: int| 0 <= j < i ==> roles@[j] != role,
        decreases roles.len() - i,
    {
        if roles[i] == role {
            assert(roles@[i as int] == role);
            return true;
        }
        i = i + 1;
    }
    false
}

/// The value given for an option of the purge command.
#[derive(Debug, Clone, Copy, PartialEq, Eq)]
pub enum PurgeOptionValue {
    /// A user, by id.
    User(u64),
    /// An integer.
    Integer(i64),
    /// Any other kind of value.
    Other,
}

/// One option of a purge command as the user filled it in.
#[derive(Debug)]
pub struct PurgeOption {
    pub name: String,
    pub value: PurgeOptionValue,
}

/// The value of the first option named `name`, if there is one.
pub open spec fn first_named(options: Seq<PurgeOption>, name: Seq<char>) -> Option<PurgeOptionValue>
    decreases options.len(),
{
    if options.len() == 0 {
        None
    } else if options[0].name@ == name {
        Some(options[0].value)
    } else {
        first_named(options.drop_first(), name)
    }
}

/// The user to purge: the first `target` option, when it names a user.
pub open spec fn target_of(options: Seq<PurgeOption>) -> Option<u64> {
    match first_named(options, "target"@) {
        Some(PurgeOptionValue::User(id)) => Some(id),
        _ => None,
    }
}

/// How many messages to purge: the first `amount` option, when it is an
/// integer, converted to `usize` as `as` does.
pub open spec fn amount_of(options: Seq<PurgeOption>) -> Option<usize> {
    match first_named(options, "amount"@) {
        Some(PurgeOptionValue::Integer(v)) => Some(v as usize),
        _ => None,
    }
}

/// The value of the first option named `name`.
fn find_option(options: &Vec<PurgeOption>, name: &str) -> (v: Option<PurgeOptionValue>)
    ensures
        v == first_named(options@, name@),
{
    let wanted: String = name.to_owned();
    let mut i: usize = 0;
    assert(options@.skip(0) =~= options@);
    while i < options.len()
        invariant
            i <= options.len(),
            wanted@ == name@,
            first_named(options@, name@) == first_named(options@.skip(i as int), name@),
        decreases options.len() - i,
    {
        assert(options@.skip(i as int)[0] == options@[i as int]);
        if options[i].name == wanted {
            return Some(options[i].value);
        }
        assert(options@.skip(i as int).drop_first() =~= options@.skip(i + 1));
        i = i + 1;
    }
    None
}

/// The user that a purge command names, if its `target` option names one.
pub fn purge_target(options: &Vec<PurgeOption>) -> (user: Option<u64>)
    ensures
        user == target_of(options@),
{
    match find_option(options, "target") {
        Some(PurgeOptionValue::User(id)) => Some(id),
        _ => None,
    }
}

/// How many messages a purge command asks for, if its `amount` option is an integer.
pub fn purge_amount(options: &Vec<PurgeOption>) -> (amount: Option<usize>)
    ensures
        amount == amount_of(options@),
{
    match find_option(options, "amount") {
        Some(PurgeOptionValue::Integer(v)) => Some(v as usize),
        _ => None,
    }
}

/// Whether message `j` of `msgs` is later than message `i`: posted later, or at
/// the same time and standing later in the list.
pub open spec fn posted_after(msgs: Seq<TrackedMessage>, j: int, i: int) -> bool {
    ||| msgs[j].timestamp > msgs[i].timestamp
    ||| (msgs[j].timestamp == msgs[i].timestamp && j > i)
}

/// How many of the first `k` messages of `msgs` are later than message `i`.
pub open spec fn later_count(msgs: Seq<TrackedMessage>, i: int, k: int) -> nat
    decreases k,
{
    if k <= 0 {
        0
    } else {
        later_count(msgs, i, k - 1) + if posted_after(msgs, k - 1, i) {
            1nat
        } else {
            0nat
        }
    }
}

/// Whether message `i` is one of the `n` latest messages of `msgs`: fewer than
/// `n` messages are later than it.
pub open spec fn among_latest(msgs: Seq<TrackedMessage>, n: nat, i: int) -> bool {
    later_count(msgs, i, msgs.len() as int) < n
}

/// The messages among the first `k` of `msgs` that are among its `n` latest,
/// in list order.
pub open spec fn latest_in_prefix(msgs: Seq<TrackedMessage>, n: nat, k: int) -> Seq<TrackedMessage>
    decreases k,
{
    if k <= 0 {
        Seq::empty()
    } else {
        let before = latest_in_prefix(msgs, n, k - 1);
        if among_latest(msgs, n, k - 1) {
            before.push(msgs[k - 1])
        } else {
            before
        }
    }
}

/// The messages a purge removes: all of them, or with an amount `n`, the user's
/// `n` latest messages by timestamp (all of them when there are fewer), in the
/// order the tracker holds them.
pub open spec fn purge_selection(msgs: Seq<TrackedMessage>, amount: Option<usize>) -> Seq<TrackedMessage> {
    match amount {
        None => msgs,
        Some(n) => latest_in_prefix(msgs, n as nat, msgs.len() as int),
    }
}

/// "Later than" orders the messages of a list strictly and totally.
proof fn lemma_posted_after_order(msgs: Seq<TrackedMessage>)
    ensures
        forall|i: int, j: int| #[trigger] posted_after(msgs, j, i) ==> !posted_after(msgs, i, j),
        forall|i: int, j: int| i != j ==> #[trigger] posted_after(msgs, j, i) || posted_after(msgs, i, j),
        forall|i: int, j: int, k: int|
            #[trigger] posted_after(msgs, k, j) && #[trigger] posted_after(msgs, j, i) ==> posted_after(msgs, k, i),
{
}

/// A message has no more later messages among the first `k` than there are
/// others among them.
proof fn lemma_later_count_bound(msgs: Seq<TrackedMessage>, i: int, k: int)
    requires
        0 <= k,
    ensures
        later_count(msgs, i, k) <= k,
        0 <= i < k ==> later_count(msgs, i, k) < k,
    decreases k,
{
    if k > 0 {
        lemma_later_count_bound(msgs, i, k - 1);
    }
}

/// A later message has fewer later messages than an earlier one.
proof fn lemma_later_count_order(msgs: Seq<TrackedMessage>, i: int, j: int, k: int)
    requires
        posted_after(msgs, j, i),
        0 <= k,
    ensures
        later_count(msgs, i, k) >= later_count(msgs, j, k) + if 0 <= j < k { 1nat } else { 0nat },
    decreases k,
{
    lemma_posted_after_order(msgs);
    if k > 0 {
        lemma_later_count_order(msgs, i, j, k - 1);
        if posted_after(msgs, k - 1, j) {
            assert(posted_after(msgs, k - 1, i));
        }
    }
}

/// With an amount, every message a purge picks is at least as recent as every
/// message it leaves, and an amount no smaller than the number of messages
/// picks them all.
pub proof fn law_selection_is_latest(msgs: Seq<TrackedMessage>, n: nat)
    ensures
        forall|i: int, j: int|
            0 <= i < msgs.len() && 0 <= j < msgs.len() && #[trigger] among_latest(msgs, n, i)
                && !#[trigger] among_latest(msgs, n, j) ==> msgs[i].timestamp >= msgs[j].timestamp,
        n >= msgs.len() ==> latest_in_prefix(msgs, n, msgs.len() as int) == msgs,
{
    lemma_posted_after_order(msgs);
    assert forall|i: int, j: int|
        0 <= i < msgs.len() && 0 <= j < msgs.len() && #[trigger] among_latest(msgs, n, i)
            && !#[trigger] among_latest(msgs, n, j) implies msgs[i].timestamp >= msgs[j].timestamp by {
        if posted_after(msgs, j, i) {
            lemma_later_count_order(msgs, i, j, msgs.len() as int);
        }
        if i == j {
        }
    }
    if n >= msgs.len() {
        lemma_latest_all(msgs, n, msgs.len() as int);
    }
}

proof fn lemma_latest_all(msgs: Seq<TrackedMessage>, n: nat, k: int)
    requires
        n >= msgs.len(),
        0 <= k <= msgs.len(),
    ensures
        latest_in_prefix(msgs, n, k) == msgs.take(k),
    decreases k,
{
    if k > 0 {
        lemma_latest_all(msgs, n, k - 1);
        lemma_later_count_bound(msgs, k - 1, msgs.len() as int);
        assert(msgs.take(k) =~= msgs.take(k - 1).push(msgs[k - 1]));
    } else {
        assert(msgs.take(0) =~= Seq::<TrackedMessage>::empty());
    }
}

/// The indices below `k` of the messages among the `n` latest of `msgs`.
pub open spec fn latest_indices(msgs: Seq<TrackedMessage>, n: nat, k: int) -> Set<int> {
    Set::new(|i: int| 0 <= i < k && among_latest(msgs, n, i))
}

pub proof fn lemma_latest_prefix_len(msgs: Seq<TrackedMessage>, n: nat, k: int)
    requires
        0 <= k,
    ensures
        latest_indices(msgs, n, k).finite(),
        latest_in_prefix(msgs, n, k).len() == latest_indices(msgs, n, k).len(),
    decreases k,
{
    if k == 0 {
        assert(latest_indices(msgs, n, 0) =~= Set::<int>::empty());
    } else {
        lemma_latest_prefix_len(msgs, n, k - 1);
        if among_latest(msgs, n, k - 1) {
            assert(latest_indices(msgs, n, k) =~= latest_indices(msgs, n, k - 1).insert(k - 1));
        } else {
            assert(latest_indices(msgs, n, k) =~= latest_indices(msgs, n, k - 1));
        }
    }
}

/// With an amount `n`, a purge picks exactly `n` messages, or all of them
/// when there are fewer.
pub proof fn law_selection_size(msgs: Seq<TrackedMessage>, n: nat)
    ensures
        latest_in_prefix(msgs, n, msgs.len() as int).len() == if n < msgs.len() {
            n
        } else {
            msgs.len()
        },
{
    let len = msgs.len() as int;
    law_selection_is_latest(msgs, n);
    if n < msgs.len() {
        lemma_latest_prefix_len(msgs, n, len);
        lemma_posted_after_order(msgs);
        let rank = |i: int| later_count(msgs, i, len) as int;
        let all = vstd::set_lib::set_int_range(0, len);
        let sel = latest_indices(msgs, n, len);
        let rest = all.difference(sel);
        vstd::set_lib::lemma_int_range(0, len);
        vstd::set_lib::lemma_int_range(0, n as int);
        vstd::set_lib::lemma_int_range(n as int, len);
        assert forall|i: int, j: int|
            all.contains(i) && all.contains(j) && #[trigger] rank(i) == #[trigger] rank(j) implies i == j by {
            if i != j {
                if posted_after(msgs, j, i) {
                    lemma_later_count_order(msgs, i, j, len);
                } else {
                    lemma_later_count_order(msgs, j, i, len);
                }
            }
        }
        assert(sel.subset_of(all));
        vstd::set_lib::lemma_len_subset(sel, all);
        assert(rest.subset_of(all));
        vstd::set_lib::lemma_len_subset(rest, all);
        vstd::set_lib::lemma_map_size(sel, sel.map(rank), rank);
        vstd::set_lib::lemma_map_size(rest, rest.map(rank), rank);
        assert(sel.map(rank).subset_of(vstd::set_lib::set_int_range(0, n as int)));
        vstd::set_lib::lemma_len_subset(sel.map(rank), vstd::set_lib::set_int_range(0, n as int));
        assert forall|r: int| #[trigger] rest.map(rank).contains(r) implies vstd::set_lib::set_int_range(
            n as int,
            len,
        ).contains(r) by {
            let i = choose|i: int| rest.contains(i) && rank(i) == r;
            lemma_later_count_bound(msgs, i, len);
        }
        vstd::set_lib::lemma_len_subset(rest.map(rank), vstd::set_lib::set_int_range(n as int, len));
        assert(sel + rest =~= all);
        vstd::set_lib::lemma_set_disjoint_lens(sel, rest);
    }
}

/// How many messages of `msgs` are later than message `i`.
fn later_messages(msgs: &Vec<TrackedMessage>, i: usize) -> (c: usize)
    requires
        i < msgs.len(),
    ensures
        c == later_count(msgs@, i as int, msgs@.len() as int),
{
    let mut c: usize = 0;
    let mut k: usize = 0;
    while k < msgs.len()
        invariant
            i < msgs.len(),
            k <= msgs.len(),
            c == later_count(msgs@, i as int, k as int),
            c <= k,
        decreases msgs.len() - k,
    {
        let later = msgs[k].timestamp > msgs[i].timestamp || (msgs[k].timestamp == msgs[i].timestamp
            && k > i);
        if later {
            c = c + 1;
        }
        k = k + 1;
    }
    c
}

/// Picks the messages a purge removes from a user's tracked messages: all of
/// them, or the `amount` latest by timestamp, kept in the tracker's order.
pub fn select_purge_messages(messages: Vec<TrackedMessage>, amount: Option<usize>) -> (selected: Vec<TrackedMessage>)
    ensures
        selected@ == purge_selection(messages@, amount),
{
    match amount {
        None => messages,
        Some(limit) => {
            let mut selected: Vec<TrackedMessage> = Vec::new();
            let mut i: usize = 0;
            while i < messages.len()
                invariant
                    i <= messages.len(),
                    selected@ == latest_in_prefix(messages@, limit as nat, i as int),
                decreases messages.len() - i,
            {
                if later_messages(&messages, i) < limit {
                    selected.push(messages[i]);
                }
                i = i + 1;
            }
            selected
        },
    }
}

/// The ids of the messages of `msgs` posted in channel `channel`, in order.
pub open spec fn channel_message_ids(msgs: Seq<TrackedMessage>, channel: u64) -> Seq<u64>
    decreases msgs.len(),
{
    if msgs.len() == 0 {
        Seq::empty()
    } else {
        let before = channel_message_ids(msgs.drop_last(), channel);
        if msgs.last().channel_id == channel {
            before.push(msgs.last().message_id)
        } else {
            before
        }
    }
}

/// Whether `msgs` holds a message with id `id` posted in `channel`.
pub open spec fn posted_in(msgs: Seq<TrackedMessage>, channel: u64, id: u64) -> bool {
    exists|i: int| 0 <= i < msgs.len() && #[trigger] msgs[i].channel_id == channel && msgs[i].message_id == id
}

/// Each message's id is in its channel's group, and a channel's group holds only
/// ids of messages posted in it.
pub proof fn law_groups_follow_channels(msgs: Seq<TrackedMessage>, channel: u64)
    ensures
        forall|i: int|
            0 <= i < msgs.len() ==> channel_message_ids(msgs, #[trigger] msgs[i].channel_id).contains(
                msgs[i].message_id,
            ),
        forall|j: int|
            0 <= j < channel_message_ids(msgs, channel).len() ==> posted_in(
                msgs,
                channel,
                #[trigger] channel_message_ids(msgs, channel)[j],
            ),
    decreases msgs.len(),
{
    if msgs.len() > 0 {
        let p = msgs.drop_last();
        law_groups_follow_channels(p, channel);
        let x = msgs.last();
        assert forall|i: int| 0 <= i < msgs.len() implies channel_message_ids(
            msgs,
            #[trigger] msgs[i].channel_id,
        ).contains(msgs[i].message_id) by {
            if i < p.len() {
                assert(msgs[i] == p[i]);
                law_groups_follow_channels(p, msgs[i].channel_id);
                let before = channel_message_ids(p, msgs[i].channel_id);
                let k = choose|k: int| 0 <= k < before.len() && before[k] == msgs[i].message_id;
                if x.channel_id == msgs[i].channel_id {
                    assert(before.push(x.message_id)[k] == msgs[i].message_id);
                }
            } else {
                let before = channel_message_ids(p, x.channel_id);
                assert(before.push(x.message_id)[before.len() as int] == x.message_id);
            }
        }
        let g = channel_message_ids(msgs, channel);
        let gp = channel_message_ids(p, channel);
        assert forall|j: int| 0 <= j < g.len() implies posted_in(msgs, channel, #[trigger] g[j]) by {
            if j < gp.len() {
                assert(g[j] == gp[j]);
                assert(posted_in(p, channel, gp[j]));
                let i = choose|i: int|
                    0 <= i < p.len() && #[trigger] p[i].channel_id == channel && p[i].message_id == gp[j];
                assert(msgs[i] == p[i]);
            } else {
                assert(msgs[msgs.len() - 1] == x);
            }
        }
    }
}

/// Groups message ids by the channel they were posted in: each channel with
/// a message gets the ids of its messages, in order.
pub fn group_by_channel(messages: &Vec<TrackedMessage>) -> (groups: HashMap<u64, Vec<u64>>)
    ensures
        forall|c: u64| #[trigger]
            groups@.contains_key(c) <==> channel_message_ids(messages@, c).len() > 0,
        forall|c: u64| #[trigger]
            groups@.contains_key(c) ==> groups@[c]@ == channel_message_ids(messages@, c),
{
    broadcast use vstd::std_specs::hash::group_hash_axioms;

    let mut groups: HashMap<u64, Vec<u64>> = HashMap::new();
    let mut i: usize = 0;
    while i < messages.len()
        invariant
            i <= messages.len(),
            forall|c: u64| #[trigger]
                groups@.contains_key(c) <==> channel_message_ids(messages@.take(i as int), c).len() > 0,
            forall|c: u64| #[trigger]
                groups@.contains_key(c) ==> groups@[c]@ == channel_message_ids(messages@.take(i as int), c),
        decreases messages.len() - i,
    {
        let m = messages[i];
        proof {
            assert(messages@.take(i + 1).drop_last() =~= messages@.take(i as int));
        }
        match groups.remove(&m.channel_id) {
            Some(mut ids) => {
                ids.push(m.message_id);
                groups.insert(m.channel_id, ids);
            },
            None => {
                let mut ids: Vec<u64> = Vec::new();
                ids.push(m.message_id);
                groups.insert(m.channel_id, ids);
            },
        }
        i = i + 1;
    }
    assert(messages@.take(messages.len() as int) =~= messages@);
    groups
}

/// At most this many messages are deleted by one request.
pub const DELETE_CHUNK_SIZE: usize = 100;

/// `needle` occurs in `haystack` as a contiguous run of characters.
pub open spec fn occurs_in(needle: Seq<char>, haystack: Seq<char>) -> bool {
    exists|i: int|
        0 <= i && i + needle.len() <= haystack.len() && #[trigger] haystack.subrange(
            i,
            i + needle.len(),
        ) == needle
}

/// The characters of `text`, in order.
fn chars_of(text: &str) -> (v: Vec<char>)
    ensures
        v@ == text@,
{
    let mut v: Vec<char> = Vec::new();
    for c in it: text.chars()
        invariant
            it.seq() == text@,
            v@ == it.seq().take(it.index()),
            it.index() == it.seq().len() ==> v@ == text@,
    {
        v.push(c);
        assert(v@ =~= it.seq().take(it.index() + 1));
        assert(it.seq().take(it.seq().len() as int) =~= it.seq());
    }
    v
}

/// Whether `needle` stands in `haystack` at position `start`.
fn matches_at(haystack: &Vec<char>, needle: &Vec<char>, start: usize) -> (b: bool)
    requires
        start + needle.len() <= haystack.len(),
    ensures
        b == (haystack@.subrange(start as int, start + needle.len()) == needle@),
{
    let mut k: usize = 0;
    while k < needle.len()
        invariant
            start + needle.len() <= haystack.len(),
            k <= needle.len(),
            forall|j: int| 0 <= j < k ==> haystack@[start + j] == needle@[j],
        decreases needle.len() - k,
    {
        if haystack[start + k] != needle[k] {
            assert(haystack@.subrange(start as int, start + needle.len())[k as int] != needle@[k as int]);
            return false;
        }
        k = k + 1;
    }
    assert(haystack@.subrange(start as int, start + needle.len()) =~= needle@);
    true
}

/// Whether `needle` occurs in `haystack` as a contiguous run of characters.
fn text_contains(haystack: &str, needle: &str) -> (b: bool)
    ensures
        b == occurs_in(needle@, haystack@),
{
    let h = chars_of(haystack);
    let n = chars_of(needle);
    if n.len() > h.len() {
        return false;
    }
    let last = h.len() - n.len();
    let mut i: usize = 0;
    loop
        invariant
            h@ == haystack@,
            n@ == needle@,
            last == h.len() - n.len(),
            n.len() <= h.len(),
            i <= last,
            forall|j: int| 0 <= j < i ==> #[trigger] h@.subrange(j, j + n.len()) != n@,
        decreases last - i,
    {
        if matches_at(&h, &n, i) {
            return true;
        }
        if i == last {
            return false;
        }
        i = i + 1;
    }
}

/// Whether a failed deletion failed because the messages were already gone:
/// Discord reports that as error code 10008 ("Unknown Message").
pub fn is_unknown_message_error(error_text: &str) -> (b: bool)
    ensures
        b == occurs_in("10008"@, error_text@),
{
    text_contains(error_text, "10008")
}

/// The ids of the chunk of `ids` that starts at `start`: up to
/// `DELETE_CHUNK_SIZE` of them.
pub open spec fn chunk_at(ids: Seq<u64>, start: int) -> Seq<u64> {
    let end = if start + DELETE_CHUNK_SIZE <= ids.len() {
        start + DELETE_CHUNK_SIZE
    } else {
        ids.len() as int
    };
    ids.subrange(start, end)
}

/// The deletion of one channel's messages, chunk by chunk, as mathematical values.
pub struct ChannelPurgeModel {
    /// All the ids to delete, in order.
    pub ids: Seq<u64>,
    /// Where the chunk now being deleted starts.
    pub next: nat,
    /// How many messages the deletions that succeeded took out.
    pub deleted: nat,
    /// Whether a deletion failed for a reason other than a message being gone.
    pub failed: bool,
}

/// What the deletion of a channel's messages asks its driver to do next.
#[derive(Debug)]
pub enum ChannelPurgeAction {
    /// Delete these messages in one request.
    DeleteChunk(Vec<u64>),
    /// All chunks are done; `deleted` messages were deleted.
    Finished { deleted: usize },
    /// A deletion failed; the channel's purge stops with that error.
    Failed,
}

/// How the request for the current chunk ended.
pub enum ChunkOutcome {
    Deleted,
    /// The request failed with this error text.
    Rejected { error_text: String },
}

/// Deletes one channel's messages in chunks of at most `DELETE_CHUNK_SIZE`;
/// a chunk whose messages were already gone is passed over, any other failure
/// stops the channel.
pub struct ChannelPurge {
    message_ids: Vec<u64>,
    next: usize,
    deleted: usize,
    failed: bool,
}

/// The action that a channel purge in state `p` asks for.
pub open spec fn purge_action_matches(p: ChannelPurgeModel, action: ChannelPurgeAction) -> bool {
    if p.failed {
        action is Failed
    } else if p.next >= p.ids.len() {
        action == (ChannelPurgeAction::Finished { deleted: p.deleted as usize })
    } else {
        action matches ChannelPurgeAction::DeleteChunk(chunk) && chunk@ == chunk_at(p.ids, p.next as int)
    }
}

/// The state after the current chunk's request ended with `outcome`.
pub open spec fn purge_after(p: ChannelPurgeModel, outcome: ChunkOutcome) -> ChannelPurgeModel {
    let size = chunk_at(p.ids, p.next as int).len();
    match outcome {
        ChunkOutcome::Deleted => ChannelPurgeModel {
            next: p.next + size,
            deleted: p.deleted + size,
            ..p
        },
        ChunkOutcome::Rejected { error_text } => if occurs_in("10008"@, error_text@) {
            ChannelPurgeModel { next: p.next + size, ..p }
        } else {
            ChannelPurgeModel { failed: true, ..p }
        },
    }
}

impl View for ChannelPurge {
    type V = ChannelPurgeModel;

    closed spec fn view(&self) -> ChannelPurgeModel {
        ChannelPurgeModel {
            ids: self.message_ids@,
            next: self.next as nat,
            deleted: self.deleted as nat,
            failed: self.failed,
        }
    }
}

impl ChannelPurge {
    /// The purge's invariant: it has not run past the ids, and it has deleted
    /// no more messages than it has gone through.
    pub open spec fn wf(&self) -> bool {
        &&& self@.next <= self@.ids.len()
        &&& self@.deleted <= self@.next
    }

    /// Whether the purge still waits for the outcome of a chunk.
    pub open spec fn in_progress(&self) -> bool {
        !self@.failed && self@.next < self@.ids.len()
    }

    /// The chunk of ids that starts at `self.next`.
    fn current_chunk(&self) -> (chunk: Vec<u64>)
        requires
            self.wf(),
        ensures
            chunk@ == chunk_at(self@.ids, self@.next as int),
    {
        let len = self.message_ids.len();
        let end: usize = if len - self.next >= DELETE_CHUNK_SIZE {
            self.next + DELETE_CHUNK_SIZE
        } else {
            len
        };
        let mut chunk: Vec<u64> = Vec::new();
        let mut i: usize = self.next;
        while i < end
            invariant
                len == self.message_ids.len(),
                self.next <= i <= end <= len,
                chunk@ == self.message_ids@.subrange(self.next as int, i as int),
            decreases end - i,
        {
            chunk.push(self.message_ids[i]);
            assert(chunk@ =~= self.message_ids@.subrange(self.next as int, i + 1));
            i = i + 1;
        }
        chunk
    }

    /// The action for the current state.
    fn action(&self) -> (action: ChannelPurgeAction)
        requires
            self.wf(),
        ensures
            purge_action_matches(self@, action),
    {
        if self.failed {
            ChannelPurgeAction::Failed
        } else if self.next >= self.message_ids.len() {
            ChannelPurgeAction::Finished { deleted: self.deleted }
        } else {
            ChannelPurgeAction::DeleteChunk(self.current_chunk())
        }
    }

    /// Starts deleting `message_ids`: asks for the first chunk, or finishes at
    /// once when there is nothing to delete.
    pub fn start(message_ids: Vec<u64>) -> (r: (ChannelPurge, ChannelPurgeAction))
        ensures
            r.0.wf(),
            r.0@ == (ChannelPurgeModel { ids: message_ids@, next: 0, deleted: 0, failed: false }),
            purge_action_matches(r.0@, r.1),
    {
        let purge = ChannelPurge { message_ids, next: 0, deleted: 0, failed: false };
        let action = purge.action();
        (purge, action)
    }

    /// Takes in how the current chunk's request ended and says what to do next.
    pub fn step(&mut self, outcome: ChunkOutcome) -> (action: ChannelPurgeAction)
        requires
            old(self).wf(),
            old(self).in_progress(),
        ensures
            final(self).wf(),
            final(self)@ == purge_after(old(self)@, outcome),
            purge_action_matches(final(self)@, action),
    {
        let len = self.message_ids.len();
        let size: usize = if len - self.next >= DELETE_CHUNK_SIZE {
            DELETE_CHUNK_SIZE
        } else {
            len - self.next
        };
        assert(size == chunk_at(self@.ids, self@.next as int).len());
        match outcome {
            ChunkOutcome::Deleted => {
                self.next = self.next + size;
                self.deleted = self.deleted + size;
            },
            ChunkOutcome::Rejected { error_text } => {
                if is_unknown_message_error(error_text.as_str()) {
                    self.next = self.next + size;
                } else {
                    self.failed = true;
                }
            },
        }
        self.action()
    }
}

/// The results of a purge over all channels.
#[derive(Debug, Clone, Copy, PartialEq, Eq)]
pub struct PurgeTally {
    /// Messages deleted over all channels whose purge finished.
    pub total_deleted: usize,
    /// Channels whose purge finished.
    pub channels_processed: usize,
    /// Channels that held messages to purge.
    pub total_channels: usize,
}

impl PurgeTally {
    /// Nothing done yet, over `total_channels` channels.
    pub fn new(total_channels: usize) -> (t: Self)
        ensures
            t == (PurgeTally { total_deleted: 0, channels_processed: 0, total_channels }),
    {
        PurgeTally { total_deleted: 0, channels_processed: 0, total_channels }
    }

    /// Counts a channel's purge: one that finished adds its deletions and
    /// counts as processed (`Some`); one that failed (`None`) changes nothing.
    pub fn record_channel(&mut self, deleted: Option<usize>)
        requires
            deleted matches Some(n) ==> old(self).total_deleted + n <= usize::MAX
                && old(self).channels_processed < usize::MAX,
        ensures
            *final(self) == match deleted {
                Some(n) => PurgeTally {
                    total_deleted: (old(self).total_deleted + n) as usize,
                    channels_processed: (old(self).channels_processed + 1) as usize,
                    total_channels: old(self).total_channels,
                },
                None => *old(self),
            },
    {
        match deleted {
            Some(n) => {
                self.total_deleted = self.total_deleted + n;
                self.channels_processed = self.channels_processed + 1;
            },
            None => {},
        }
    }
}

/// The role check permits exactly the members who have the configured role:
/// with a setting that reads as role `role`, a member is permitted when their
/// roles hold it and refused when they do not, and a request without a member
/// fails; a missing or unreadable setting permits everyone.
pub proof fn law_role_check_permits_holders(setting: Seq<char>, roles: Seq<u64>, role: u64)
    ensures
        parsed_u64(setting) == Some(role) ==> {
            &&& (role_decision(Some(setting), Some(roles)) == RoleCheck::Permitted <==> roles.contains(role))
            &&& (role_decision(Some(setting), Some(roles)) == RoleCheck::MissingRole <==> !roles.contains(role))
            &&& role_decision(Some(setting), None) == RoleCheck::NoMember
        },
        parsed_u64(setting) is None ==> role_decision(Some(setting), Some(roles)) == RoleCheck::Permitted
            && role_decision(Some(setting), None) == RoleCheck::Permitted,
        role_decision(None, Some(roles)) == RoleCheck::Permitted,
        role_decision(None, None) == RoleCheck::Permitted,
{
}

/// A chunk rejected for any reason but the messages being gone stops the
/// channel's purge with a failure, whichever chunk it was; a chunk that was
/// deleted, or whose messages were already gone, never does. A deleted chunk
/// adds its size to the count and a rejected one adds nothing, and the purge
/// finishes exactly when it has gone through all ids without a failure.
pub proof fn law_channel_purge_outcomes(p: ChannelPurgeModel, outcome: ChunkOutcome, action: ChannelPurgeAction)
    requires
        !p.failed,
        p.next < p.ids.len(),
        p.ids.len() <= usize::MAX,
        p.deleted <= p.next,
        purge_action_matches(purge_after(p, outcome), action),
    ensures
        outcome matches ChunkOutcome::Rejected { error_text } && !occurs_in("10008"@, error_text@)
            ==> action is Failed,
        outcome is Deleted || (outcome matches ChunkOutcome::Rejected { error_text } && occurs_in(
            "10008"@,
            error_text@,
        )) ==> !(action is Failed),
        outcome is Deleted ==> purge_after(p, outcome).deleted == p.deleted + (if p.next + DELETE_CHUNK_SIZE
            <= p.ids.len() {
            DELETE_CHUNK_SIZE as int
        } else {
            p.ids.len() - p.next
        }),
        outcome is Rejected ==> purge_after(p, outcome).deleted == p.deleted,
        action matches ChannelPurgeAction::Finished { deleted } ==> !(outcome matches ChunkOutcome::Rejected {
            error_text,
        } && !occurs_in("10008"@, error_text@)) && purge_after(p, outcome).next == p.ids.len() && deleted
            == purge_after(p, outcome).deleted && deleted <= p.ids.len(),
{
    let size = chunk_at(p.ids, p.next as int).len();
    assert(size == if p.next + DELETE_CHUNK_SIZE <= p.ids.len() {
        DELETE_CHUNK_SIZE as int
    } else {
        p.ids.len() - p.next
    });
}

} // verus!
