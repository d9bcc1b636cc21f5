//! infraBot: a Telegram authorization and notification gateway for infraCLI.
//!
//! - `store`: pairing sessions between a CLI and an allowlisted Telegram user;
//! - `token`: the access tokens issued for approved pairings;
//! - `api`: what each HTTP endpoint and the Telegram webhook answer;
//! - `events`: which events are delivered, how they read, and to whom;
//! - `subscribers`: the users subscribed to notifications;
//! - `telegram`: Telegram updates and bot commands;
//! - `config`, `document`, `values`, `report`: the configuration document
//!   and the messages of its refusals;
//! - `text`, `table`: text and association sequences used throughout;
//! - `primitives`: the calls into hashing, encoding, URL, randomness and
//!   clock crates.
pub mod api;
pub mod config;
pub mod document;
pub mod events;
pub mod primitives;
pub mod report;
pub mod store;
pub mod subscribers;
pub mod table;
pub mod telegram;
pub mod text;
pub mod token;
pub mod values;
