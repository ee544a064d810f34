//! Moderation and aggregation engine for a one-word-at-a-time collaborative
//! storytelling channel: an administrative command interpreter, a versioned
//! configuration store that republishes a derived rule set with every
//! mutation, a moderator that validates each message against it, and an
//! aggregator that reconstructs the story from recent channel history in
//! budget-bounded blocks.
pub mod command;
pub mod config;
pub mod handler;
pub mod moderation;
pub mod rules;
pub mod story;
pub mod text;
