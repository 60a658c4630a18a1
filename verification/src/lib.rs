//! Message tracking and purge planning for a Discord moderation bot.
//!
//! The library keeps, per user, the messages seen in the last 48 hours, bounded
//! per user and in total, and decides which of them a purge removes. The Discord
//! connection itself lives in the application around it.

pub mod clock;
pub mod types;
pub mod commands;
pub mod services;
