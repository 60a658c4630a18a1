use std::collections::HashMap;
use vstd::prelude::*;

verus! {

/// One message that the tracker remembers: its id, the channel it was posted
/// in, and when it was posted (milliseconds since the Unix epoch).
#[derive(Debug, Clone, Copy, PartialEq, Eq)]
pub struct TrackedMessage {
    pub message_id: u64,
    pub channel_id: u64,
    pub timestamp: i64,
}

impl TrackedMessage {
    pub fn new(message_id: u64, channel_id: u64, timestamp: i64) -> (m: Self)
        ensures
            m.message_id == message_id,
            m.channel_id == channel_id,
            m.timestamp == timestamp,
    {
        Self { message_id, channel_id, timestamp }
    }
}

/// Each user's tracked messages, in the order they were handed in, keyed by
/// the user's id.
pub type UserMessages = HashMap<u64, Vec<TrackedMessage>>;

} // verus!
