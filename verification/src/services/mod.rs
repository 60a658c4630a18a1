pub mod message_counts;
pub mod message_lists;
pub mod message_tracker;
pub mod history_scanner;
pub mod tracker_laws;
