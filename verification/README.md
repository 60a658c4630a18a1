# discord_purge_bot

A Discord moderation bot that remembers, per user, the messages posted in the
last 48 hours and can delete them all across a guild with `/purge`.

- `src/` is the verified library (Verus):
  - `services/message_tracker.rs`: the tracker. Its model (`TrackerModel`) is a
    map from user id to that user's messages, oldest first, plus the ids a
    history scan has handed in. Every operation is specified over the model,
    and the type invariant `model_wf` (at most 1000 messages per user, at most 50000
    in all, no id twice for one user, no user without messages) holds after each.
  - `services/history_scanner.rs`: the per-channel history scan as a state
    machine: the driver performs each request and hands back the batch.
  - `services/tracker_laws.rs`: properties that relate several operations
    (a removal undoes an add, a cleanup twice is a cleanup once, ...).
  - `commands/purge.rs`: the decisions of `/purge`: role check, option
    reading, choice of the latest messages, grouping by channel, chunked
    deletion.
  - `commands/purge_flow.rs`: the handling of one `/purge` request as a state
    machine: the driver performs each Discord request and hands back its outcome.
  - `clock.rs`: the one read of the system clock.
- `app/` is the bot itself: the gateway connection, event handlers, timers and
  Discord requests, around the library.
- `tests/` exercises the library on concrete values.
