//! Command intake and authorization core of a chat-ops automation bot.
//!
//! The crate has two halves: a parser that extracts bot directives from
//! free-form multi-line text (`parser`), and a permission cache that answers
//! authorization queries from a periodically refreshed snapshot of user sets
//! (`permissions`). Both are specified against mathematical models of the
//! underlying text and sets.

pub mod text;

pub mod parser;

pub mod permissions;
