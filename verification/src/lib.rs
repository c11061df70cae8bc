//! Relays messages from source channels to target channels on behalf of
//! owning users, with per-owner mention overlays and fuzzy name matching.
//!
//! The [`model::Registry`] holds the relay graph of all owners: guilds,
//! channels, connections, mention rules and delivery handles. Every
//! operation on it is scoped by owner and keeps its invariant. The chat
//! platform and the database stay outside: what they answer is handed in as
//! plain values, and what is to be asked of them is handed out.
//!
//! - [`directory`]: guilds and channels as the platform reports them, and
//!   lookups by name.
//! - [`connections`], [`listing`]: creating, deleting, reading and listing
//!   connections.
//! - [`webhooks`]: the delivery handle of an owner and a target, created on
//!   first use.
//! - [`mentions`]: mention rules and the texts they put on a relayed message.
//! - [`dispatch`]: the deliveries that a message gives rise to, and the run
//!   through them.
//! - [`matcher`]: ranking of names against a typed fragment.
//! - [`commands`], [`handlers`], [`labels`], [`responses`]: the commands of
//!   users, from their options to the answer in words.
//! - [`text`], [`seqs`]: the order of strings, small string operations, and
//!   facts about filtered sequences.

pub mod commands;
pub mod connections;
pub mod directory;
pub mod dispatch;
pub mod error;
pub mod handlers;
pub mod labels;
pub mod listing;
pub mod matcher;
pub mod mentions;
pub mod model;
pub mod responses;
pub mod seqs;
pub mod text;
pub mod webhooks;
